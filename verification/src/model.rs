//! What a piece of data stands for: the tag tree that the decoder makes of
//! what the encoder writes.

use crate::as_nbt_array::TOKEN_ARRAY;
use crate::consts;
use crate::data::Data;
use crate::error::ErrorCode;
use crate::formatter::{binary_head, Event};
use crate::frame::{
    byte_parts, gather, int_parts, joined, lemma_binary_concat, lemma_binary_one,
    lemma_byte_array_stands, lemma_compound_payload, lemma_compound_stands,
    lemma_int_array_stands, lemma_large_payloads, lemma_list_stands, lemma_long_array_stands,
    lemma_small_payloads, lemma_tag_stands, lemma_text_payload, list_head_bytes, long_parts,
    part_stands, payload_stands, stands_for, text_bytes, Meaning,
};
use crate::emit::{
    array_element, array_elements, array_kind, binary_all, bool_byte, emit, emit_array,
    emit_elements, emit_entries, emit_fields, emit_inner, emit_list, fits_prefix, key_name, label,
    lemma_array_elements_fail, lemma_elements_fail, lemma_entries_fail, lemma_fields_fail,
    list_kind,
};
use crate::value::ValueView;
use crate::wire::{be_i32, be_i64, be_i8};
use vstd::prelude::*;
use vstd::utf8::encode_utf8;

verus! {

/// The name that the tag of `value` bears, where `name` is the pending name
/// and `root` says whether the root's name is still to be settled: a struct
/// at the root gives its type's name to a root without a name.
pub open spec fn tag_name(value: Data, name: Seq<char>, root: bool) -> Seq<char>
    decreases value,
{
    match value {
        Data::Struct(nominal, _) => if root && name.len() == 0 {
            nominal@
        } else {
            name
        },
        Data::Just(inner) => tag_name(*inner, name, root),
        Data::NewtypeStruct(nominal, inner) => if nominal@ == TOKEN_ARRAY@ {
            name
        } else {
            tag_name(*inner, name, root)
        },
        _ => name,
    }
}

/// The byte that an element of a byte array holds.
pub open spec fn byte_of(item: Data) -> i8
    decreases item,
{
    match item {
        Data::I8(v) => v,
        Data::NewtypeStruct(_, inner) => byte_of(*inner),
        _ => 0,
    }
}

/// The int that an element of an int array holds.
pub open spec fn int_of(item: Data) -> i32
    decreases item,
{
    match item {
        Data::I32(v) => v,
        Data::NewtypeStruct(_, inner) => int_of(*inner),
        _ => 0,
    }
}

/// The long that an element of a long array holds.
pub open spec fn long_of(item: Data) -> i64
    decreases item,
{
    match item {
        Data::I64(v) => v,
        Data::NewtypeStruct(_, inner) => long_of(*inner),
        _ => 0,
    }
}

/// What `value` stands for under the array marker: the array of the kind
/// that its first element calls for, or nothing where it has no elements.
pub open spec fn model_array(value: Data) -> Option<ValueView>
    decreases value,
{
    match value {
        Data::Sequence { sized, items } => if items.len() == 0 {
            None
        } else if array_kind(items[0]) == Ok::<u8, ErrorCode>(consts::TYPE_ID_BYTE_ARRAY) {
            Some(ValueView::ByteArray(Seq::new(items.len() as nat, |i: int| byte_of(items[i]))))
        } else if array_kind(items[0]) == Ok::<u8, ErrorCode>(consts::TYPE_ID_INT_ARRAY) {
            Some(ValueView::IntArray(Seq::new(items.len() as nat, |i: int| int_of(items[i]))))
        } else {
            Some(ValueView::LongArray(Seq::new(items.len() as nat, |i: int| long_of(items[i]))))
        },
        Data::NewtypeStruct(nominal, inner) => model_array(*inner),
        _ => None,
    }
}

/// What `value` stands for as a named tag: the value of the tag, or nothing
/// where no tag is written for it.
pub open spec fn model(value: Data, name: Seq<char>, root: bool) -> Option<ValueView>
    decreases value, 0nat,
{
    match value {
        Data::Bool(b) => Some(ValueView::Byte(bool_byte(b))),
        Data::I8(v) => Some(ValueView::Byte(v)),
        Data::I16(v) => Some(ValueView::Short(v)),
        Data::I32(v) => Some(ValueView::Int(v)),
        Data::I64(v) => Some(ValueView::Long(v)),
        Data::F32 { bits, text } => Some(ValueView::Float(bits)),
        Data::F64 { bits, text } => Some(ValueView::Double(bits)),
        Data::Char(c) => Some(ValueView::String(seq![c])),
        Data::Str(s) => Some(ValueView::String(s@)),
        Data::Just(inner) => model(*inner, name, root),
        Data::UnitStruct(_) => Some(ValueView::Compound(Seq::empty())),
        Data::NewtypeStruct(nominal, inner) => if nominal@ == TOKEN_ARRAY@ {
            model_array(*inner)
        } else {
            model(*inner, name, root)
        },
        Data::Sequence { sized, items } => Some(
            ValueView::List(model_items(items, items.len() as nat, root)),
        ),
        Data::Tuple(items) => Some(ValueView::List(model_items(items, items.len() as nat, root))),
        Data::Table(entries) => Some(
            ValueView::Compound(
                gather(entry_meanings(entries, entries.len() as nat, root), 0, Seq::empty()),
            ),
        ),
        Data::Struct(_, fields) => Some(
            ValueView::Compound(
                gather(
                    field_meanings(fields, fields.len() as nat, root && name.len() != 0),
                    0,
                    Seq::empty(),
                ),
            ),
        ),
        _ => None,
    }
}

/// What `value` stands for as a named tag: the name and the value of the
/// tag, or nothing where no tag is written for it.
pub open spec fn meaning(value: Data, name: Seq<char>, root: bool) -> Meaning
    decreases value, 1nat,
{
    match model(value, name, root) {
        Some(v) => Some((tag_name(value, name, root), v)),
        None => None,
    }
}

/// What the first `n` fields of a struct stand for, field by field.
pub open spec fn field_meanings(fields: Vec<(String, Data)>, n: nat, root: bool) -> Seq<Meaning>
    decreases fields, n,
{
    if n == 0 || n > fields.len() {
        Seq::empty()
    } else {
        field_meanings(fields, (n - 1) as nat, root).push(
            meaning(
                fields[n - 1].1,
                fields[n - 1].0@,
                emit_fields(fields, (n - 1) as nat, root)->Ok_0.root,
            ),
        )
    }
}

/// What the first `n` entries of a map stand for, entry by entry.
pub open spec fn entry_meanings(entries: Vec<(Data, Data)>, n: nat, root: bool) -> Seq<Meaning>
    decreases entries, n,
{
    if n == 0 || n > entries.len() {
        Seq::empty()
    } else {
        entry_meanings(entries, (n - 1) as nat, root).push(
            meaning(
                entries[n - 1].1,
                key_name(entries[n - 1].0)->Ok_0,
                emit_entries(entries, (n - 1) as nat, root)->Ok_0.root,
            ),
        )
    }
}

/// What the first `n` elements of a list stand for.
pub open spec fn model_items(items: Vec<Data>, n: nat, root: bool) -> Seq<ValueView>
    decreases items, n,
{
    if n == 0 || n > items.len() {
        Seq::empty()
    } else {
        model_items(items, (n - 1) as nat, root).push(
            model_inner(
                items[n - 1],
                emit_elements(items, (n - 1) as nat, list_kind(items[0])->Ok_0, root)->Ok_0.root,
            ),
        )
    }
}

/// What `item` stands for as an element of a list.
pub open spec fn model_inner(item: Data, root: bool) -> ValueView
    decreases item, 0nat,
{
    match item {
        Data::Bool(b) => ValueView::Byte(bool_byte(b)),
        Data::I8(v) => ValueView::Byte(v),
        Data::I16(v) => ValueView::Short(v),
        Data::I32(v) => ValueView::Int(v),
        Data::I64(v) => ValueView::Long(v),
        Data::F32 { bits, text } => ValueView::Float(bits),
        Data::F64 { bits, text } => ValueView::Double(bits),
        Data::Char(c) => ValueView::String(seq![c]),
        Data::Str(s) => ValueView::String(s@),
        Data::UnitVariant(variant) => ValueView::String(variant@),
        Data::Just(inner) => model_inner(*inner, root),
        Data::NewtypeStruct(_, inner) => model_inner(*inner, root),
        Data::Table(entries) => ValueView::Compound(
            gather(entry_meanings(entries, entries.len() as nat, root), 0, Seq::empty()),
        ),
        Data::Struct(_, fields) => ValueView::Compound(
            gather(field_meanings(fields, fields.len() as nat, root), 0, Seq::empty()),
        ),
        _ => ValueView::Byte(0),
    }
}

/// The bytes of the `k`th field of a struct whose fields are encoded from
/// the state `root` on.
pub open spec fn field_bytes(fields: Vec<(String, Data)>, k: int, root: bool) -> Seq<u8> {
    binary_all(
        emit(
            fields[k].1,
            fields[k].0@,
            emit_fields(fields, k as nat, root)->Ok_0.root,
        )->Ok_0.events,
    )
}

/// The bytes of the fields of a struct, field by field.
pub open spec fn field_parts(fields: Vec<(String, Data)>, root: bool) -> Seq<Seq<u8>> {
    Seq::new(fields.len() as nat, |k: int| field_bytes(fields, k, root))
}

/// Whether each of the first `n` fields of a struct can be encoded in the
/// state that the fields before it leave.
pub open spec fn fields_encode(fields: Vec<(String, Data)>, n: nat, root: bool) -> bool {
    forall|k: int|
        0 <= k < n ==> (#[trigger] emit(
            fields[k].1,
            fields[k].0@,
            emit_fields(fields, k as nat, root)->Ok_0.root,
        )) is Ok
}

/// Fields that can be encoded one by one can be encoded one after the other,
/// and the bytes are those of the fields in order.
pub proof fn lemma_fields_bytes(fields: Vec<(String, Data)>, k: nat, root: bool)
    requires
        k <= fields.len(),
        fields_encode(fields, k, root),
    ensures
        emit_fields(fields, k, root) is Ok,
        binary_all(emit_fields(fields, k, root)->Ok_0.events) == joined(
            field_parts(fields, root),
            k,
        ),
    decreases k,
{
    if k > 0 {
        lemma_fields_bytes(fields, (k - 1) as nat, root);
        let before = emit_fields(fields, (k - 1) as nat, root)->Ok_0;
        let last = emit(fields[k - 1].1, fields[k - 1].0@, before.root);
        assert(last is Ok);
        lemma_binary_concat(before.events, last->Ok_0.events);
    } else {
        assert(binary_all(Seq::<Event>::empty()) =~= Seq::<u8>::empty());
    }
}

/// What a struct is encoded to: the head of a compound under the struct's
/// tag name, the bytes of the fields, the end tag.
pub proof fn lemma_struct_bytes(
    nominal: String,
    fields: Vec<(String, Data)>,
    name: Seq<char>,
    root: bool,
)
    requires
        fields_encode(fields, fields.len() as nat, root && name.len() != 0),
        fits_prefix(
            if root && name.len() == 0 {
                nominal@
            } else {
                name
            },
        ),
    ensures
        emit(Data::Struct(nominal, fields), name, root) is Ok,
        binary_all(emit(Data::Struct(nominal, fields), name, root)->Ok_0.events) == binary_head(
            consts::TYPE_ID_COMPOUND,
            label(
                if root && name.len() == 0 {
                    nominal@
                } else {
                    name
                },
            ),
        ) + (joined(field_parts(fields, root && name.len() != 0), fields.len() as nat)
            + seq![consts::TYPE_ID_END]),
{
    let shown = if root && name.len() == 0 {
        nominal@
    } else {
        name
    };
    let inner_root = root && name.len() != 0;
    let n = fields.len() as nat;
    lemma_fields_bytes(fields, n, inner_root);
    let inner = emit_fields(fields, n, inner_root)->Ok_0;
    let open = Event::CompoundTag { name: label(shown) };
    let events = emit(Data::Struct(nominal, fields), name, root)->Ok_0.events;
    lemma_binary_concat(seq![open] + inner.events, seq![Event::EndTag]);
    lemma_binary_concat(seq![open], inner.events);
    lemma_binary_one(open);
    lemma_binary_one(Event::EndTag);
    assert(binary_all(events) =~= binary_head(consts::TYPE_ID_COMPOUND, label(shown)) + (
    binary_all(inner.events) + seq![consts::TYPE_ID_END]));
}

/// What the fields stand for, field by field.
pub proof fn lemma_field_meanings(fields: Vec<(String, Data)>, n: nat, root: bool)
    requires
        n <= fields.len(),
    ensures
        field_meanings(fields, n, root).len() == n,
        forall|k: int|
            0 <= k < n ==> #[trigger] field_meanings(fields, n, root)[k] == meaning(
                fields[k].1,
                fields[k].0@,
                emit_fields(fields, k as nat, root)->Ok_0.root,
            ),
    decreases n,
{
    if n > 0 {
        lemma_field_meanings(fields, (n - 1) as nat, root);
    }
}

/// What the entries stand for, entry by entry.
pub proof fn lemma_entry_meanings(entries: Vec<(Data, Data)>, n: nat, root: bool)
    requires
        n <= entries.len(),
    ensures
        entry_meanings(entries, n, root).len() == n,
        forall|k: int|
            0 <= k < n ==> #[trigger] entry_meanings(entries, n, root)[k] == meaning(
                entries[k].1,
                key_name(entries[k].0)->Ok_0,
                emit_entries(entries, k as nat, root)->Ok_0.root,
            ),
    decreases n,
{
    if n > 0 {
        lemma_entry_meanings(entries, (n - 1) as nat, root);
    }
}

/// What the elements stand for, element by element.
pub proof fn lemma_model_items(items: Vec<Data>, n: nat, root: bool)
    requires
        n <= items.len(),
    ensures
        model_items(items, n, root).len() == n,
        forall|k: int|
            0 <= k < n ==> #[trigger] model_items(items, n, root)[k] == model_inner(
                items[k],
                emit_elements(items, k as nat, list_kind(items[0])->Ok_0, root)->Ok_0.root,
            ),
    decreases n,
{
    if n > 0 {
        lemma_model_items(items, (n - 1) as nat, root);
    }
}

/// Fields that were encoded one after the other were encoded one by one.
pub proof fn lemma_fields_steps(fields: Vec<(String, Data)>, n: nat, root: bool)
    requires
        n <= fields.len(),
        emit_fields(fields, n, root) is Ok,
    ensures
        fields_encode(fields, n, root),
{
    assert forall|k: int| 0 <= k < n implies (#[trigger] emit(
        fields[k].1,
        fields[k].0@,
        emit_fields(fields, k as nat, root)->Ok_0.root,
    )) is Ok by {
        if emit_fields(fields, (k + 1) as nat, root) is Err {
            lemma_fields_fail(fields, (k + 1) as nat, n, root);
        }
        if emit_fields(fields, k as nat, root) is Err {
            lemma_fields_fail(fields, k as nat, n, root);
        }
    }
}

/// The bytes of the `k`th entry of a map whose entries are encoded from the
/// state `root` on.
pub open spec fn entry_bytes(entries: Vec<(Data, Data)>, k: int, root: bool) -> Seq<u8> {
    binary_all(
        emit(
            entries[k].1,
            key_name(entries[k].0)->Ok_0,
            emit_entries(entries, k as nat, root)->Ok_0.root,
        )->Ok_0.events,
    )
}

/// The bytes of the entries of a map, entry by entry.
pub open spec fn entry_parts(entries: Vec<(Data, Data)>, root: bool) -> Seq<Seq<u8>> {
    Seq::new(entries.len() as nat, |k: int| entry_bytes(entries, k, root))
}

/// Whether the `k`th entry of a map can be encoded in the state that the
/// entries before it leave.
pub open spec fn entry_encodes(entries: Vec<(Data, Data)>, k: int, root: bool) -> bool {
    &&& emit_entries(entries, k as nat, root) is Ok
    &&& key_name(entries[k].0) is Ok
    &&& emit(
        entries[k].1,
        key_name(entries[k].0)->Ok_0,
        emit_entries(entries, k as nat, root)->Ok_0.root,
    ) is Ok
}

/// Entries that were encoded one after the other were encoded one by one,
/// and the bytes are those of the entries in order.
pub proof fn lemma_entries_steps(entries: Vec<(Data, Data)>, n: nat, root: bool)
    requires
        n <= entries.len(),
        emit_entries(entries, n, root) is Ok,
    ensures
        forall|k: int| 0 <= k < n ==> #[trigger] entry_encodes(entries, k, root),
        binary_all(emit_entries(entries, n, root)->Ok_0.events) == joined(
            entry_parts(entries, root),
            n,
        ),
    decreases n,
{
    if n > 0 {
        if emit_entries(entries, (n - 1) as nat, root) is Err {
            lemma_entries_fail(entries, (n - 1) as nat, n, root);
        }
        lemma_entries_steps(entries, (n - 1) as nat, root);
        let before = emit_entries(entries, (n - 1) as nat, root)->Ok_0;
        let last = emit(entries[n - 1].1, key_name(entries[n - 1].0)->Ok_0, before.root);
        assert(entry_encodes(entries, n - 1, root));
        lemma_binary_concat(before.events, last->Ok_0.events);
    } else {
        assert(binary_all(Seq::<Event>::empty()) =~= Seq::<u8>::empty());
    }
}

/// The bytes of the `k`th element of a list of kind `id` whose elements are
/// encoded from the state `root` on.
pub open spec fn item_bytes(items: Vec<Data>, k: int, id: u8, root: bool) -> Seq<u8> {
    binary_all(
        emit_inner(items[k], id, emit_elements(items, k as nat, id, root)->Ok_0.root)->Ok_0.events,
    )
}

/// The payloads of the elements of a list, element by element.
pub open spec fn item_parts(items: Vec<Data>, id: u8, root: bool) -> Seq<Seq<u8>> {
    Seq::new(items.len() as nat, |k: int| item_bytes(items, k, id, root))
}

/// Whether the `k`th element of a list can be encoded in the state that the
/// elements before it leave.
pub open spec fn item_encodes(items: Vec<Data>, k: int, id: u8, root: bool) -> bool {
    &&& emit_elements(items, k as nat, id, root) is Ok
    &&& emit_inner(items[k], id, emit_elements(items, k as nat, id, root)->Ok_0.root) is Ok
}

/// Elements that were encoded one after the other were encoded one by one,
/// and the bytes are those of the elements in order.
pub proof fn lemma_elements_steps(items: Vec<Data>, n: nat, id: u8, root: bool)
    requires
        n <= items.len(),
        emit_elements(items, n, id, root) is Ok,
    ensures
        forall|k: int| 0 <= k < n ==> #[trigger] item_encodes(items, k, id, root),
        binary_all(emit_elements(items, n, id, root)->Ok_0.events) == joined(
            item_parts(items, id, root),
            n,
        ),
    decreases n,
{
    if n > 0 {
        if emit_elements(items, (n - 1) as nat, id, root) is Err {
            lemma_elements_fail(items, (n - 1) as nat, n, id, root);
        }
        lemma_elements_steps(items, (n - 1) as nat, id, root);
        let before = emit_elements(items, (n - 1) as nat, id, root)->Ok_0;
        let last = emit_inner(items[n - 1], id, before.root);
        assert(item_encodes(items, n - 1, id, root));
        lemma_binary_concat(before.events, last->Ok_0.events);
    } else {
        assert(binary_all(Seq::<Event>::empty()) =~= Seq::<u8>::empty());
    }
}

/// The bytes of something that is written between an opening and a closing
/// formatter call.
pub proof fn lemma_enclosed_bytes(open: Event, inner: Seq<Event>, close: Event)
    ensures
        binary_all(seq![open] + inner + seq![close]) == crate::formatter::binary(open) + (
        binary_all(inner) + crate::formatter::binary(close)),
{
    lemma_binary_concat(seq![open] + inner, seq![close]);
    lemma_binary_concat(seq![open], inner);
    lemma_binary_one(open);
    lemma_binary_one(close);
    assert((crate::formatter::binary(open) + binary_all(inner)) + crate::formatter::binary(close)
        =~= crate::formatter::binary(open) + (binary_all(inner) + crate::formatter::binary(
        close,
    )));
}

/// The UTF-8 bytes of one character can be counted by a length prefix.
pub proof fn lemma_char_fits(c: char)
    ensures
        fits_prefix(seq![c]),
{
    let one = seq![c];
    assert(one.drop_first() =~= Seq::<char>::empty());
    assert(encode_utf8(one.drop_first()) =~= Seq::<u8>::empty());
    assert(encode_utf8(one) =~= vstd::utf8::encode_scalar(c as u32) + Seq::<u8>::empty());
    assert(vstd::utf8::encode_scalar(c as u32).len() <= 4);
}

/// Whether `value` is a number or a boolean.
pub open spec fn is_number(value: Data) -> bool {
    value is Bool || value is I8 || value is I16 || value is I32 || value is I64 || value is F32
        || value is F64
}

/// The tag of a number reads back.
proof fn lemma_number_tag(value: Data, name: Seq<char>, root: bool)
    requires
        is_number(value),
        emit(value, name, root) is Ok,
    ensures
        part_stands(binary_all(emit(value, name, root)->Ok_0.events), meaning(value, name, root)),
{
    let events = emit(value, name, root)->Ok_0.events;
    lemma_binary_one(events[0]);
    assert(events =~= seq![events[0]]);
    match value {
        Data::Bool(b) => {
            lemma_small_payloads(bool_byte(b), 0, 0);
            lemma_tag_stands(
                consts::TYPE_ID_BYTE,
                name,
                be_i8(bool_byte(b)),
                ValueView::Byte(bool_byte(b)),
            );
        },
        Data::I8(v) => {
            lemma_small_payloads(v, 0, 0);
            lemma_tag_stands(consts::TYPE_ID_BYTE, name, be_i8(v), ValueView::Byte(v));
        },
        Data::I16(v) => {
            lemma_small_payloads(0, v, 0);
            lemma_tag_stands(
                consts::TYPE_ID_SHORT,
                name,
                crate::wire::be_i16(v),
                ValueView::Short(v),
            );
        },
        Data::I32(v) => {
            lemma_small_payloads(0, 0, v);
            lemma_tag_stands(consts::TYPE_ID_INT, name, be_i32(v), ValueView::Int(v));
        },
        Data::I64(v) => {
            lemma_large_payloads(v, 0, 0);
            lemma_tag_stands(consts::TYPE_ID_LONG, name, be_i64(v), ValueView::Long(v));
        },
        Data::F32 { bits, text } => {
            lemma_large_payloads(0, bits, 0);
            lemma_tag_stands(
                consts::TYPE_ID_FLOAT,
                name,
                crate::wire::be_u32(bits),
                ValueView::Float(bits),
            );
        },
        Data::F64 { bits, text } => {
            lemma_large_payloads(0, 0, bits);
            lemma_tag_stands(
                consts::TYPE_ID_DOUBLE,
                name,
                crate::wire::be_u64(bits),
                ValueView::Double(bits),
            );
        },
        _ => {},
    }
}

/// The tag of a string or of a character reads back.
proof fn lemma_text_tag(value: Data, name: Seq<char>, root: bool)
    requires
        value is Str || value is Char,
        emit(value, name, root) is Ok,
    ensures
        part_stands(binary_all(emit(value, name, root)->Ok_0.events), meaning(value, name, root)),
{
    let events = emit(value, name, root)->Ok_0.events;
    lemma_binary_one(events[0]);
    assert(events =~= seq![events[0]]);
    let text = match value {
        Data::Str(s) => s@,
        Data::Char(c) => seq![c],
        _ => Seq::empty(),
    };
    if value is Char {
        lemma_char_fits(value->Char_0);
    }
    lemma_text_payload(text);
    lemma_tag_stands(consts::TYPE_ID_STRING, name, text_bytes(text), ValueView::String(text));
    assert(binary_all(events) =~= binary_head(consts::TYPE_ID_STRING, label(name)) + text_bytes(
        text,
    ));
}

/// The payload of a number in a list reads back.
proof fn lemma_number_inner(item: Data, id: u8, root: bool)
    requires
        is_number(item),
        emit_inner(item, id, root) is Ok,
    ensures
        payload_stands(
            binary_all(emit_inner(item, id, root)->Ok_0.events),
            id,
            model_inner(item, root),
        ),
{
    let events = emit_inner(item, id, root)->Ok_0.events;
    lemma_binary_one(events[0]);
    assert(events =~= seq![events[0]]);
    match item {
        Data::Bool(b) => {
            lemma_small_payloads(bool_byte(b), 0, 0);
        },
        Data::I8(v) => {
            lemma_small_payloads(v, 0, 0);
        },
        Data::I16(v) => {
            lemma_small_payloads(0, v, 0);
        },
        Data::I32(v) => {
            lemma_small_payloads(0, 0, v);
        },
        Data::I64(v) => {
            lemma_large_payloads(v, 0, 0);
        },
        Data::F32 { bits, text } => {
            lemma_large_payloads(0, bits, 0);
        },
        Data::F64 { bits, text } => {
            lemma_large_payloads(0, 0, bits);
        },
        _ => {},
    }
}

/// The payload of a string in a list reads back.
proof fn lemma_text_inner(item: Data, id: u8, root: bool)
    requires
        item is Str || item is Char || item is UnitVariant,
        emit_inner(item, id, root) is Ok,
    ensures
        payload_stands(
            binary_all(emit_inner(item, id, root)->Ok_0.events),
            id,
            model_inner(item, root),
        ),
{
    let events = emit_inner(item, id, root)->Ok_0.events;
    lemma_binary_one(events[0]);
    assert(events =~= seq![events[0]]);
    let text = match item {
        Data::Str(s) => s@,
        Data::UnitVariant(s) => s@,
        Data::Char(c) => seq![c],
        _ => Seq::empty(),
    };
    if item is Char {
        lemma_char_fits(item->Char_0);
    }
    lemma_text_payload(text);
    assert(binary_all(events) =~= text_bytes(text));
}

/// The kind of an array is one of the three array kinds.
proof fn lemma_array_kind(first: Data)
    requires
        array_kind(first) is Ok,
    ensures
        crate::formatter::is_array_id(array_kind(first)->Ok_0),
    decreases first,
{
    match first {
        Data::NewtypeStruct(_, inner) => {
            lemma_array_kind(*inner);
        },
        _ => {},
    }
}

/// The payload of an element of an array holds the element's number.
proof fn lemma_array_element(item: Data, id: u8)
    requires
        array_element(item, id) is Ok,
    ensures
        id == consts::TYPE_ID_BYTE_ARRAY ==> array_element(item, id)->Ok_0 == (Event::ByteInner {
            value: byte_of(item),
        }),
        id == consts::TYPE_ID_INT_ARRAY ==> array_element(item, id)->Ok_0 == (Event::IntInner {
            value: int_of(item),
        }),
        id == consts::TYPE_ID_LONG_ARRAY ==> array_element(item, id)->Ok_0 == (Event::LongInner {
            value: long_of(item),
        }),
    decreases item,
{
    match item {
        Data::NewtypeStruct(_, inner) => {
            lemma_array_element(*inner, id);
        },
        _ => {},
    }
}

/// The numbers that the elements of an array hold.
pub open spec fn bytes_of(items: Vec<Data>) -> Seq<i8> {
    Seq::new(items.len() as nat, |i: int| byte_of(items[i]))
}

/// The numbers that the elements of an array hold.
pub open spec fn ints_of(items: Vec<Data>) -> Seq<i32> {
    Seq::new(items.len() as nat, |i: int| int_of(items[i]))
}

/// The numbers that the elements of an array hold.
pub open spec fn longs_of(items: Vec<Data>) -> Seq<i64> {
    Seq::new(items.len() as nat, |i: int| long_of(items[i]))
}

/// The payloads of the elements of an array of kind `id`.
pub open spec fn array_parts(items: Vec<Data>, id: u8) -> Seq<Seq<u8>> {
    if id == consts::TYPE_ID_BYTE_ARRAY {
        byte_parts(bytes_of(items))
    } else if id == consts::TYPE_ID_INT_ARRAY {
        int_parts(ints_of(items))
    } else {
        long_parts(longs_of(items))
    }
}

/// The bytes of the elements of an array are the bytes of their numbers.
proof fn lemma_array_bytes(items: Vec<Data>, k: nat, id: u8)
    requires
        k <= items.len(),
        crate::formatter::is_array_id(id),
        array_elements(items, k, id) is Ok,
    ensures
        binary_all(array_elements(items, k, id)->Ok_0) == joined(array_parts(items, id), k),
    decreases k,
{
    if k > 0 {
        if array_elements(items, (k - 1) as nat, id) is Err {
            lemma_array_elements_fail(items, (k - 1) as nat, k, id);
        }
        lemma_array_bytes(items, (k - 1) as nat, id);
        let before = array_elements(items, (k - 1) as nat, id)->Ok_0;
        let e = array_element(items[k - 1], id)->Ok_0;
        lemma_array_element(items[k - 1], id);
        lemma_binary_concat(before, seq![e]);
        lemma_binary_one(e);
        assert(before.push(e) =~= before + seq![e]);
    } else {
        assert(binary_all(Seq::<Event>::empty()) =~= Seq::<u8>::empty());
    }
}

/// What `value` stands for under the array marker, as a tag of the name
/// `name`.
pub open spec fn array_meaning(value: Data, name: Seq<char>) -> Meaning {
    match model_array(value) {
        Some(v) => Some((name, v)),
        None => None,
    }
}

/// Round trip of arrays: what the encoder writes for a value under the
/// array marker decodes, wherever it stands, to the array of the value's
/// numbers; a sequence without elements leaves nothing to decode.
pub proof fn theorem_array(value: Data, name: Seq<char>)
    requires
        emit_array(value, name) is Ok,
    ensures
        part_stands(binary_all(emit_array(value, name)->Ok_0), array_meaning(value, name)),
    decreases value,
{
    match value {
        Data::Sequence { sized, items } => {
            if items.len() == 0 {
                assert(binary_all(Seq::<Event>::empty()) =~= Seq::<u8>::empty());
            } else {
                let n = items.len() as nat;
                let id = array_kind(items[0])->Ok_0;
                lemma_array_kind(items[0]);
                let open = Event::ArrayHead { type_id: id, len: n as i32, name: label(name) };
                let payloads = array_elements(items, n, id)->Ok_0;
                lemma_array_bytes(items, n, id);
                lemma_enclosed_bytes(open, payloads, Event::CloseArray);
                let body = joined(array_parts(items, id), n);
                assert(binary_all(emit_array(value, name)->Ok_0) =~= binary_head(id, label(name))
                    + (be_i32(n as i32) + body));
                if id == consts::TYPE_ID_BYTE_ARRAY {
                    lemma_byte_array_stands(name, bytes_of(items));
                } else if id == consts::TYPE_ID_INT_ARRAY {
                    lemma_int_array_stands(name, ints_of(items));
                } else {
                    lemma_long_array_stands(name, longs_of(items));
                }
            }
        },
        Data::NewtypeStruct(nominal, inner) => {
            theorem_array(*inner, name);
        },
        _ => {},
    }
}

/// Round trip of everything that can be encoded: the bytes that the encoder
/// writes for `value` decode, wherever they stand and whatever the kind of
/// the input, to the name that the tag bears and to the value that `value`
/// stands for; where the encoder writes nothing, there is nothing to decode.
pub proof fn theorem_round_trip(value: Data, name: Seq<char>, root: bool)
    requires
        emit(value, name, root) is Ok,
    ensures
        part_stands(binary_all(emit(value, name, root)->Ok_0.events), meaning(value, name, root)),
    decreases value, 0nat,
{
    let events = emit(value, name, root)->Ok_0.events;
    match value {
        Data::Nothing => {
            assert(binary_all(Seq::<Event>::empty()) =~= Seq::<u8>::empty());
        },
        Data::Just(inner) => {
            theorem_round_trip(*inner, name, root);
        },
        Data::UnitStruct(_) => {
            let parts = Seq::<Seq<u8>>::empty();
            let meanings = Seq::<Meaning>::empty();
            lemma_compound_stands(name, parts, meanings);
            lemma_enclosed_bytes(
                Event::CompoundTag { name: label(name) },
                Seq::empty(),
                Event::EndTag,
            );
            assert(events =~= seq![Event::CompoundTag { name: label(name) }] + Seq::<
                Event,
            >::empty() + seq![Event::EndTag]);
            assert(binary_all(Seq::<Event>::empty()) =~= Seq::<u8>::empty());
            assert(joined(parts, 0) =~= Seq::<u8>::empty());
            assert(gather(meanings, 0, Seq::empty()) =~= Seq::empty());
        },
        Data::NewtypeStruct(nominal, inner) => {
            if nominal@ == TOKEN_ARRAY@ {
                theorem_array(*inner, name);
            } else {
                theorem_round_trip(*inner, name, root);
            }
        },
        Data::Sequence { sized, items } => {
            theorem_list(items, name, root);
        },
        Data::Tuple(items) => {
            theorem_list(items, name, root);
        },
        Data::Table(entries) => {
            let n = entries.len() as nat;
            theorem_entries(entries, root);
            lemma_entries_steps(entries, n, root);
            lemma_entry_meanings(entries, n, root);
            let inner = emit_entries(entries, n, root)->Ok_0;
            lemma_enclosed_bytes(
                Event::CompoundTag { name: label(name) },
                inner.events,
                Event::EndTag,
            );
            lemma_compound_stands(
                name,
                entry_parts(entries, root),
                entry_meanings(entries, n, root),
            );
        },
        Data::Struct(nominal, fields) => {
            let n = fields.len() as nat;
            let inner_root = root && name.len() != 0;
            let shown = tag_name(value, name, root);
            theorem_fields(fields, inner_root);
            lemma_fields_steps(fields, n, inner_root);
            lemma_field_meanings(fields, n, inner_root);
            lemma_struct_bytes(nominal, fields, name, root);
            lemma_compound_stands(
                shown,
                field_parts(fields, inner_root),
                field_meanings(fields, n, inner_root),
            );
        },
        Data::Str(_) | Data::Char(_) => {
            lemma_text_tag(value, name, root);
        },
        _ => {
            lemma_number_tag(value, name, root);
        },
    }
}

/// What the fields of a struct are encoded to stands for what the fields
/// stand for, field by field.
pub proof fn theorem_fields(fields: Vec<(String, Data)>, root: bool)
    requires
        emit_fields(fields, fields.len() as nat, root) is Ok,
    ensures
        forall|k: int|
            0 <= k < fields.len() ==> part_stands(
                #[trigger] field_parts(fields, root)[k],
                field_meanings(fields, fields.len() as nat, root)[k],
            ),
    decreases fields, 0nat,
{
    let n = fields.len() as nat;
    lemma_fields_steps(fields, n, root);
    lemma_field_meanings(fields, n, root);
    assert forall|k: int| 0 <= k < fields.len() implies part_stands(
        #[trigger] field_parts(fields, root)[k],
        field_meanings(fields, n, root)[k],
    ) by {
        assert(fields_encode(fields, n, root));
        assert(emit(
            fields[k].1,
            fields[k].0@,
            emit_fields(fields, k as nat, root)->Ok_0.root,
        ) is Ok);
        theorem_round_trip(
            fields[k].1,
            fields[k].0@,
            emit_fields(fields, k as nat, root)->Ok_0.root,
        );
    }
}

/// What the entries of a map are encoded to stands for what the entries
/// stand for, entry by entry.
pub proof fn theorem_entries(entries: Vec<(Data, Data)>, root: bool)
    requires
        emit_entries(entries, entries.len() as nat, root) is Ok,
    ensures
        forall|k: int|
            0 <= k < entries.len() ==> part_stands(
                #[trigger] entry_parts(entries, root)[k],
                entry_meanings(entries, entries.len() as nat, root)[k],
            ),
    decreases entries, 0nat,
{
    let n = entries.len() as nat;
    lemma_entries_steps(entries, n, root);
    lemma_entry_meanings(entries, n, root);
    assert forall|k: int| 0 <= k < entries.len() implies part_stands(
        #[trigger] entry_parts(entries, root)[k],
        entry_meanings(entries, n, root)[k],
    ) by {
        assert(entry_encodes(entries, k, root));
        let state = emit_entries(entries, k as nat, root)->Ok_0.root;
        theorem_round_trip(entries[k].1, key_name(entries[k].0)->Ok_0, state);
    }
}

/// What a list is encoded to: the header, the payloads of the elements, the
/// close.
proof fn lemma_list_shape(items: Vec<Data>, name: Seq<char>, root: bool)
    requires
        emit_list(items, name, root) is Ok,
    ensures
        fits_prefix(name),
        items.len() <= i32::MAX,
        items.len() == 0 ==> emit_list(items, name, root)->Ok_0.events == seq![
            Event::ListTag { type_id: consts::TYPE_ID_END, len: 0, name: label(name) },
        ] + Seq::<Event>::empty() + seq![Event::CloseList],
        items.len() > 0 ==> {
            &&& list_kind(items[0]) is Ok
            &&& emit_elements(items, items.len() as nat, list_kind(items[0])->Ok_0, root) is Ok
            &&& emit_list(items, name, root)->Ok_0.events == seq![
                Event::ListTag {
                    type_id: list_kind(items[0])->Ok_0,
                    len: items.len() as i32,
                    name: label(name),
                },
            ] + emit_elements(
                items,
                items.len() as nat,
                list_kind(items[0])->Ok_0,
                root,
            )->Ok_0.events + seq![Event::CloseList]
        },
{
    if items.len() == 0 {
        let open = Event::ListTag { type_id: consts::TYPE_ID_END, len: 0, name: label(name) };
        assert(seq![open, Event::CloseList] =~= seq![open] + Seq::<Event>::empty() + seq![
            Event::CloseList,
        ]);
    }
}

/// Round trip of the list without elements.
proof fn lemma_empty_list(name: Seq<char>)
    requires
        fits_prefix(name),
    ensures
        stands_for(
            binary_all(
                seq![Event::ListTag { type_id: consts::TYPE_ID_END, len: 0, name: label(name) }]
                    + Seq::<Event>::empty() + seq![Event::CloseList],
            ),
            name,
            ValueView::List(Seq::empty()),
        ),
{
    let open = Event::ListTag { type_id: consts::TYPE_ID_END, len: 0, name: label(name) };
    let parts = Seq::<Seq<u8>>::empty();
    let values = Seq::<ValueView>::empty();
    lemma_list_stands(name, consts::TYPE_ID_END, parts, values);
    lemma_enclosed_bytes(open, Seq::empty(), Event::CloseList);
    assert(binary_all(Seq::<Event>::empty()) =~= Seq::<u8>::empty());
    assert(joined(parts, 0) =~= Seq::<u8>::empty());
    assert(binary_all(seq![open] + Seq::<Event>::empty() + seq![Event::CloseList])
        =~= list_head_bytes(name, consts::TYPE_ID_END, 0) + joined(parts, 0));
}

/// Round trip of lists: what the encoder writes for a list decodes, wherever
/// it stands, to the list of what the elements stand for.
pub proof fn theorem_list(items: Vec<Data>, name: Seq<char>, root: bool)
    requires
        emit_list(items, name, root) is Ok,
    ensures
        stands_for(
            binary_all(emit_list(items, name, root)->Ok_0.events),
            name,
            ValueView::List(model_items(items, items.len() as nat, root)),
        ),
    decreases items, 1nat,
{
    let n = items.len() as nat;
    lemma_list_shape(items, name, root);
    if n == 0 {
        lemma_empty_list(name);
        assert(model_items(items, 0, root) =~= Seq::<ValueView>::empty());
    } else {
        let id = list_kind(items[0])->Ok_0;
        let open = Event::ListTag { type_id: id, len: n as i32, name: label(name) };
        let inner = emit_elements(items, n, id, root)->Ok_0;
        lemma_elements_steps(items, n, id, root);
        lemma_model_items(items, n, root);
        let parts = item_parts(items, id, root);
        let values = model_items(items, n, root);
        assert forall|k: int| 0 <= k < parts.len() implies payload_stands(
            #[trigger] parts[k],
            id,
            values[k],
        ) by {
            assert(item_encodes(items, k, id, root));
            let state = emit_elements(items, k as nat, id, root)->Ok_0.root;
            theorem_inner(items[k], id, state);
        }
        lemma_list_stands(name, id, parts, values);
        lemma_enclosed_bytes(open, inner.events, Event::CloseList);
        assert(binary_all(seq![open] + inner.events + seq![Event::CloseList]) =~= list_head_bytes(
            name,
            id,
            n,
        ) + joined(parts, n));
    }
}

/// Round trip of list elements: the payload that the encoder writes for an
/// element of a list decodes, wherever it stands, to what the element stands
/// for.
pub proof fn theorem_inner(item: Data, id: u8, root: bool)
    requires
        emit_inner(item, id, root) is Ok,
    ensures
        payload_stands(
            binary_all(emit_inner(item, id, root)->Ok_0.events),
            id,
            model_inner(item, root),
        ),
    decreases item, 0nat,
{
    match item {
        Data::Just(inner) => {
            theorem_inner(*inner, id, root);
        },
        Data::NewtypeStruct(_, inner) => {
            theorem_inner(*inner, id, root);
        },
        Data::Table(entries) => {
            let n = entries.len() as nat;
            theorem_entries(entries, root);
            lemma_entries_steps(entries, n, root);
            lemma_entry_meanings(entries, n, root);
            let inner = emit_entries(entries, n, root)->Ok_0;
            lemma_enclosed_bytes(Event::CompoundInner, inner.events, Event::EndTag);
            lemma_compound_payload(entry_parts(entries, root), entry_meanings(entries, n, root));
            assert(binary_all(emit_inner(item, id, root)->Ok_0.events) =~= joined(
                entry_parts(entries, root),
                n,
            ) + seq![consts::TYPE_ID_END]);
        },
        Data::Struct(_, fields) => {
            let n = fields.len() as nat;
            theorem_fields(fields, root);
            lemma_fields_steps(fields, n, root);
            lemma_fields_bytes(fields, n, root);
            lemma_field_meanings(fields, n, root);
            let inner = emit_fields(fields, n, root)->Ok_0;
            lemma_enclosed_bytes(Event::CompoundInner, inner.events, Event::EndTag);
            lemma_compound_payload(field_parts(fields, root), field_meanings(fields, n, root));
            assert(binary_all(emit_inner(item, id, root)->Ok_0.events) =~= joined(
                field_parts(fields, root),
                n,
            ) + seq![consts::TYPE_ID_END]);
        },
        Data::Str(_) | Data::Char(_) | Data::UnitVariant(_) => {
            lemma_text_inner(item, id, root);
        },
        _ => {
            lemma_number_inner(item, id, root);
        },
    }
}

} // verus!
