//! What holds of encoding and decoding together.

use crate::as_nbt_array::{is_marked, TOKEN_ARRAY};
use crate::consts;
use crate::data::Data;
use crate::de::{parse_entries, parse_items, parse_payload, parse_tag, remaining, take_len};
use crate::error::Error;
use crate::formatter::{binary, Event};
use crate::frame::{
    list_head_bytes,
    gather, lemma_binary_concat, lemma_binary_one, lemma_compound_stands, lemma_whole,
    part_stands, stands_for, Meaning,
};
use crate::map::put;
use crate::model::{
    lemma_enclosed_bytes,
    field_parts, lemma_struct_bytes, meaning, model, tag_name, theorem_round_trip,
};
use crate::read::{take_text, take_u8, Source};
use crate::emit::{
    array_element, array_head, emit_array_element, emit_element, emit_inner,
    array_elements, array_kind, binary_all, emit, emit_array, emit_elements, emit_fields,
    emit_list, encoding, fits_prefix, label, list_kind,
};
use crate::value::ValueView;
use crate::wire::i32_at;
use vstd::prelude::*;

verus! {

/// Round trip: whatever can be encoded, and is not left out, decodes to the
/// name that its tag bears and to the value that it stands for. The input
/// may be of either kind.
pub proof fn law_round_trip(value: Data, name: Seq<char>)
    requires
        encoding(value, name) is Ok,
        model(value, name, true) is Some,
    ensures
        forall|src: Source| #[trigger]
            parse_tag(src, encoding(value, name)->Ok_0, 0) == Ok::<
                ((Seq<char>, ValueView), nat),
                Error,
            >(
                (
                    (tag_name(value, name, true), model(value, name, true)->Some_0),
                    encoding(value, name)->Ok_0.len(),
                ),
            ),
{
    theorem_round_trip(value, name, true);
    lemma_whole(
        encoding(value, name)->Ok_0,
        tag_name(value, name, true),
        model(value, name, true)->Some_0,
    );
}

/// The value that a piece of data of one of the six numeric kinds stands
/// for.
pub open spec fn primitive(value: Data) -> Option<ValueView> {
    match value {
        Data::I8(v) => Some(ValueView::Byte(v)),
        Data::I16(v) => Some(ValueView::Short(v)),
        Data::I32(v) => Some(ValueView::Int(v)),
        Data::I64(v) => Some(ValueView::Long(v)),
        Data::F32 { bits, text } => Some(ValueView::Float(bits)),
        Data::F64 { bits, text } => Some(ValueView::Double(bits)),
        _ => None,
    }
}

/// Round trip of the numeric kinds: a byte, a short, an int, a long, a float
/// or a double, encoded under a name that a length prefix can count, decodes
/// to that name and that value, bit for bit, wherever the tag stands; so it
/// does where the tag is the whole input.
pub proof fn law_primitive_round_trip(value: Data, name: Seq<char>)
    requires
        primitive(value) is Some,
        fits_prefix(name),
    ensures
        encoding(value, name) is Ok,
        stands_for(encoding(value, name)->Ok_0, name, primitive(value)->Some_0),
        forall|src: Source| #[trigger]
            parse_tag(src, encoding(value, name)->Ok_0, 0) == Ok::<
                ((Seq<char>, ValueView), nat),
                Error,
            >(((name, primitive(value)->Some_0), encoding(value, name)->Ok_0.len())),
{
    theorem_round_trip(value, name, true);
    lemma_whole(encoding(value, name)->Ok_0, name, primitive(value)->Some_0);
}

/// Round trip of strings: a string whose UTF-8 bytes a length prefix can
/// count, encoded under a name of which the same holds, decodes to that name
/// and that string, wherever the tag stands; so it does where the tag is the
/// whole input.
pub proof fn law_string_round_trip(s: String, name: Seq<char>)
    requires
        fits_prefix(s@),
        fits_prefix(name),
    ensures
        encoding(Data::Str(s), name) is Ok,
        stands_for(encoding(Data::Str(s), name)->Ok_0, name, ValueView::String(s@)),
        forall|src: Source| #[trigger]
            parse_tag(src, encoding(Data::Str(s), name)->Ok_0, 0) == Ok::<
                ((Seq<char>, ValueView), nat),
                Error,
            >(((name, ValueView::String(s@)), encoding(Data::Str(s), name)->Ok_0.len())),
{
    theorem_round_trip(Data::Str(s), name, true);
    lemma_whole(encoding(Data::Str(s), name)->Ok_0, name, ValueView::String(s@));
}

/// Whether a field of a struct round-trips by itself: it can be encoded
/// under its own name, and what it is encoded to is either a tag that
/// decodes to that name and to the value `meaning`, wherever it stands, or,
/// where the field has no value, nothing at all.
pub open spec fn round_trips(field: (String, Data), meaning: Option<ValueView>) -> bool {
    forall|root: bool|
        {
            &&& (#[trigger] emit(field.1, field.0@, root)) is Ok
            &&& match meaning {
                Some(v) => stands_for(
                    binary_all(emit(field.1, field.0@, root)->Ok_0.events),
                    field.0@,
                    v,
                ),
                None => emit(field.1, field.0@, root)->Ok_0.events.len() == 0,
            }
        }
}

/// What the fields of a struct stand for, where `values` are the values of
/// the fields: each value under the name of its field.
pub open spec fn named_values(fields: Vec<(String, Data)>, values: Seq<Option<ValueView>>) -> Seq<
    Meaning,
> {
    Seq::new(
        fields.len() as nat,
        |k: int|
            match values[k] {
                Some(v) => Some((fields[k].0@, v)),
                None => None,
            },
    )
}

/// Round trip of structs: a struct whose fields round-trip each by itself
/// round-trips. Encoded under a name that a length prefix can count (its own
/// type's name where it is the root and the name is empty), it decodes,
/// wherever the tag stands, to that name and to the compound of its fields'
/// names and values.
pub proof fn law_struct_round_trip(
    nominal: String,
    fields: Vec<(String, Data)>,
    values: Seq<Option<ValueView>>,
    name: Seq<char>,
    root: bool,
)
    requires
        fields.len() == values.len(),
        forall|i: int| 0 <= i < fields.len() ==> round_trips(#[trigger] fields[i], values[i]),
        fits_prefix(
            if root && name.len() == 0 {
                nominal@
            } else {
                name
            },
        ),
    ensures
        emit(Data::Struct(nominal, fields), name, root) is Ok,
        stands_for(
            binary_all(emit(Data::Struct(nominal, fields), name, root)->Ok_0.events),
            if root && name.len() == 0 {
                nominal@
            } else {
                name
            },
            ValueView::Compound(gather(named_values(fields, values), 0, Seq::empty())),
        ),
{
    let shown = if root && name.len() == 0 {
        nominal@
    } else {
        name
    };
    let inner_root = root && name.len() != 0;
    let parts = field_parts(fields, inner_root);
    let meanings = named_values(fields, values);
    assert forall|k: int| 0 <= k < fields.len() implies (#[trigger] emit(
        fields[k].1,
        fields[k].0@,
        emit_fields(fields, k as nat, inner_root)->Ok_0.root,
    )) is Ok by {
        assert(round_trips(fields[k], values[k]));
    }
    assert forall|i: int| 0 <= i < parts.len() implies part_stands(
        #[trigger] parts[i],
        meanings[i],
    ) by {
        assert(round_trips(fields[i], values[i]));
        let state = emit_fields(fields, i as nat, inner_root)->Ok_0.root;
        let out = emit(fields[i].1, fields[i].0@, state);
        assert(out is Ok);
        if values[i] is None {
            assert(out->Ok_0.events =~= Seq::<Event>::empty());
            assert(binary_all(Seq::<Event>::empty()) =~= Seq::<u8>::empty());
        }
    }
    lemma_struct_bytes(nominal, fields, name, root);
    lemma_compound_stands(shown, parts, meanings);
}

/// The decoder of list elements hands out one value for each payload that
/// it is asked for.
proof fn lemma_items_count(
    src: Source,
    id: u8,
    input: Seq<u8>,
    pos: int,
    n: nat,
    acc: Seq<ValueView>,
)
    requires
        parse_items(src, id, input, pos, n, acc) is Ok,
    ensures
        parse_items(src, id, input, pos, n, acc)->Ok_0.0.len() == acc.len() + n,
    decreases n,
{
    if n > 0 {
        let first = parse_payload(src, id, input, pos)->Ok_0;
        lemma_items_count(src, id, input, pos + first.1, (n - 1) as nat, acc.push(first.0));
    }
}

/// Length fidelity: where the decoder makes a value of a list or an array,
/// the value has as many elements as the header declares.
pub proof fn law_length_fidelity(src: Source, id: u8, input: Seq<u8>, pos: int)
    requires
        parse_payload(src, id, input, pos) is Ok,
    ensures
        id == consts::TYPE_ID_LIST ==> {
            &&& parse_payload(src, id, input, pos)->Ok_0.0 is List
            &&& parse_payload(src, id, input, pos)->Ok_0.0->List_0.len() == i32_at(input, pos + 1)
        },
        id == consts::TYPE_ID_BYTE_ARRAY ==> {
            &&& parse_payload(src, id, input, pos)->Ok_0.0 is ByteArray
            &&& parse_payload(src, id, input, pos)->Ok_0.0->ByteArray_0.len() == i32_at(input, pos)
        },
        id == consts::TYPE_ID_INT_ARRAY ==> {
            &&& parse_payload(src, id, input, pos)->Ok_0.0 is IntArray
            &&& parse_payload(src, id, input, pos)->Ok_0.0->IntArray_0.len() == i32_at(input, pos)
        },
        id == consts::TYPE_ID_LONG_ARRAY ==> {
            &&& parse_payload(src, id, input, pos)->Ok_0.0 is LongArray
            &&& parse_payload(src, id, input, pos)->Ok_0.0->LongArray_0.len() == i32_at(input, pos)
        },
{
    if id == consts::TYPE_ID_LIST {
        let element_id = take_u8(src, input, pos)->Ok_0.0;
        let n = take_len(src, input, pos + 1)->Ok_0.0;
        lemma_items_count(src, element_id, input, pos + 5, n, Seq::empty());
    }
}

/// The header that the encoder writes for a list, or for an array that has
/// elements: it declares the kind of the elements and their number.
pub open spec fn header_of(value: Data, name: Seq<char>) -> Option<Event>
    decreases value,
{
    match value {
        Data::Sequence { sized, items } => Some(list_header(items, name)),
        Data::Tuple(items) => Some(list_header(items, name)),
        Data::NewtypeStruct(nominal, inner) => if nominal@ == TOKEN_ARRAY@ {
            array_header(*inner, name)
        } else {
            header_of(*inner, name)
        },
        Data::Just(inner) => header_of(*inner, name),
        _ => None,
    }
}

/// The header of the list of `items`.
pub open spec fn list_header(items: Vec<Data>, name: Seq<char>) -> Event {
    Event::ListTag {
        type_id: if items.len() == 0 {
            consts::TYPE_ID_END
        } else {
            list_kind(items[0])->Ok_0
        },
        len: items.len() as i32,
        name: label(name),
    }
}

/// The header of the array that `value` makes under the marker, where it
/// has elements.
pub open spec fn array_header(value: Data, name: Seq<char>) -> Option<Event>
    decreases value,
{
    match value {
        Data::Sequence { sized, items } => if items.len() == 0 {
            None
        } else {
            Some(
                Event::ArrayHead {
                    type_id: array_kind(items[0])->Ok_0,
                    len: items.len() as i32,
                    name: label(name),
                },
            )
        },
        Data::NewtypeStruct(nominal, inner) => if nominal@ == TOKEN_ARRAY@ {
            array_header(*inner, name)
        } else {
            None
        },
        _ => None,
    }
}

/// A list's header comes first.
proof fn lemma_list_header_first(items: Vec<Data>, name: Seq<char>, root: bool)
    requires
        emit_list(items, name, root) is Ok,
    ensures
        emit_list(items, name, root)->Ok_0.events.len() > 0,
        emit_list(items, name, root)->Ok_0.events[0] == list_header(items, name),
{
    if items.len() > 0 {
        let id = list_kind(items[0])->Ok_0;
        let open = Event::ListTag { type_id: id, len: items.len() as i32, name: label(name) };
        let inner = emit_elements(items, items.len() as nat, id, root)->Ok_0;
        let events = seq![open] + inner.events + seq![Event::CloseList];
        assert(events[0] == open);
    }
}

/// An array's header comes first.
proof fn lemma_array_header_first(value: Data, name: Seq<char>)
    requires
        emit_array(value, name) is Ok,
        array_header(value, name) is Some,
    ensures
        emit_array(value, name)->Ok_0.len() > 0,
        emit_array(value, name)->Ok_0[0] == array_header(value, name)->Some_0,
    decreases value,
{
    match value {
        Data::NewtypeStruct(nominal, inner) => {
            lemma_array_header_first(*inner, name);
        },
        Data::Sequence { sized, items } => {
            let id = array_kind(items[0])->Ok_0;
            let open = Event::ArrayHead { type_id: id, len: items.len() as i32, name: label(name) };
            let payloads = array_elements(items, items.len() as nat, id)->Ok_0;
            let events = seq![open] + payloads + seq![Event::CloseArray];
            assert(events[0] == open);
        },
        _ => {},
    }
}

/// Header first: where a list or an array is encoded, the first thing that
/// the encoder writes is the header, which declares the kind of the elements
/// and their number; on the wire the header's bytes come before all others.
pub proof fn law_header_first(value: Data, name: Seq<char>, root: bool)
    requires
        emit(value, name, root) is Ok,
        header_of(value, name) is Some,
    ensures
        emit(value, name, root)->Ok_0.events.len() > 0,
        emit(value, name, root)->Ok_0.events[0] == header_of(value, name)->Some_0,
        binary_all(emit(value, name, root)->Ok_0.events) == binary(
            header_of(value, name)->Some_0,
        ) + binary_all(emit(value, name, root)->Ok_0.events.drop_first()),
    decreases value,
{
    let events = emit(value, name, root)->Ok_0.events;
    match value {
        Data::NewtypeStruct(nominal, inner) => {
            if nominal@ == TOKEN_ARRAY@ {
                lemma_array_header_first(*inner, name);
            } else {
                law_header_first(*inner, name, root);
            }
        },
        Data::Just(inner) => {
            law_header_first(*inner, name, root);
        },
        Data::Sequence { sized, items } => {
            lemma_list_header_first(items, name, root);
        },
        Data::Tuple(items) => {
            lemma_list_header_first(items, name, root);
        },
        _ => {},
    }
    assert(events =~= seq![events[0]] + events.drop_first());
    lemma_binary_concat(seq![events[0]], events.drop_first());
    lemma_binary_one(events[0]);
}

/// Header first, element by element: of a list that is written element by
/// element the first element brings the header, which declares the kind of
/// that element and the number of elements, before its own payload; a later
/// element brings its payload and no header.
pub proof fn law_list_header_once(
    type_id: Option<u8>,
    len: usize,
    value: Data,
    name: Seq<char>,
    root: bool,
)
    requires
        emit_element(type_id, len, value, name, root) is Ok,
    ensures
        type_id is None ==> {
            &&& list_kind(value) is Ok
            &&& emit_inner(value, list_kind(value)->Ok_0, root) is Ok
            &&& emit_element(type_id, len, value, name, root)->Ok_0.events == seq![
                Event::ListTag {
                    type_id: list_kind(value)->Ok_0,
                    len: len as i32,
                    name: label(name),
                },
            ] + emit_inner(value, list_kind(value)->Ok_0, root)->Ok_0.events
        },
        type_id is Some ==> emit_element(type_id, len, value, name, root) == emit_inner(
            value,
            type_id->Some_0,
            root,
        ),
{
}

/// Header first, element by element: of an array that is written element by
/// element the first element brings the header before its own payload, and
/// the header bears the kind of byte array for a byte, of int array for an
/// int, of long array for a long; a later element brings one payload and no
/// header.
pub proof fn law_array_header_once(type_id: Option<u8>, len: usize, value: Data, name: Seq<char>)
    requires
        emit_array_element(type_id, len, value, name) is Ok,
    ensures
        type_id is None ==> {
            &&& array_kind(value) is Ok
            &&& array_element(value, array_kind(value)->Ok_0) is Ok
            &&& emit_array_element(type_id, len, value, name)->Ok_0 == seq![
                array_head(array_kind(value)->Ok_0, len, name),
                array_element(value, array_kind(value)->Ok_0)->Ok_0,
            ]
            &&& value is I8 ==> array_kind(value)->Ok_0 == consts::TYPE_ID_BYTE_ARRAY
            &&& value is I32 ==> array_kind(value)->Ok_0 == consts::TYPE_ID_INT_ARRAY
            &&& value is I64 ==> array_kind(value)->Ok_0 == consts::TYPE_ID_LONG_ARRAY
        },
        type_id is Some ==> {
            &&& array_element(value, type_id->Some_0) is Ok
            &&& emit_array_element(type_id, len, value, name)->Ok_0 == seq![
                array_element(value, type_id->Some_0)->Ok_0,
            ]
        },
{
}

/// The list without elements: under a name that a length prefix can count it
/// is encoded to the head of a list, the element id 0 and the length 0, and
/// to nothing more.
pub proof fn law_empty_list(items: Vec<Data>, name: Seq<char>, root: bool)
    requires
        items.len() == 0,
        fits_prefix(name),
    ensures
        emit_list(items, name, root) is Ok,
        binary_all(emit_list(items, name, root)->Ok_0.events) == list_head_bytes(
            name,
            consts::TYPE_ID_END,
            0,
        ),
{
    let open = Event::ListTag { type_id: consts::TYPE_ID_END, len: 0, name: label(name) };
    let events = emit_list(items, name, root)->Ok_0.events;
    lemma_enclosed_bytes(open, Seq::empty(), Event::CloseList);
    assert(events =~= seq![open] + Seq::<Event>::empty() + seq![Event::CloseList]);
    assert(binary_all(Seq::<Event>::empty()) =~= Seq::<u8>::empty());
    assert(binary_all(events) =~= list_head_bytes(name, consts::TYPE_ID_END, 0));
}

/// Whether `value` is encoded as a compound.
pub open spec fn is_compound(value: Data) -> bool {
    value is Struct || value is Table || value is UnitStruct
}

/// Terminator presence, on the encoder's side: the last thing that the
/// encoder writes for a compound is the end tag; on the wire the compound's
/// last byte is the id 0.
pub proof fn law_compound_terminated(value: Data, name: Seq<char>, root: bool)
    requires
        emit(value, name, root) is Ok,
        is_compound(value),
    ensures
        emit(value, name, root)->Ok_0.events.len() > 0,
        emit(value, name, root)->Ok_0.events.last() == Event::EndTag,
        binary_all(emit(value, name, root)->Ok_0.events).len() > 0,
        binary_all(emit(value, name, root)->Ok_0.events).last() == consts::TYPE_ID_END,
{
    let events = emit(value, name, root)->Ok_0.events;
    assert(events =~= events.drop_last() + seq![Event::EndTag]);
    lemma_binary_concat(events.drop_last(), seq![Event::EndTag]);
    lemma_binary_one(Event::EndTag);
}

/// The decoder leaves a compound behind an end tag.
proof fn lemma_entries_end(
    src: Source,
    input: Seq<u8>,
    pos: int,
    acc: Seq<(Seq<char>, ValueView)>,
)
    requires
        parse_entries(src, input, pos, acc) is Ok,
    ensures
        pos < parse_entries(src, input, pos, acc)->Ok_0.1 <= input.len(),
        input[parse_entries(src, input, pos, acc)->Ok_0.1 - 1] == consts::TYPE_ID_END,
    decreases remaining(input, pos),
{
    let id = take_u8(src, input, pos)->Ok_0.0;
    if id != consts::TYPE_ID_END {
        let named = take_text(src, input, pos + 1)->Ok_0;
        let value = parse_payload(src, id, input, named.1)->Ok_0;
        lemma_entries_end(src, input, named.1 + value.1, put(acc, named.0, value.0));
    }
}

/// Terminator presence, on the decoder's side: the bytes that the decoder
/// takes for a compound end in the id 0.
pub proof fn law_compound_ends(src: Source, input: Seq<u8>, pos: int)
    requires
        parse_payload(src, consts::TYPE_ID_COMPOUND, input, pos) is Ok,
    ensures
        parse_payload(src, consts::TYPE_ID_COMPOUND, input, pos)->Ok_0.1 > 0,
        input[pos + parse_payload(src, consts::TYPE_ID_COMPOUND, input, pos)->Ok_0.1 - 1]
            == consts::TYPE_ID_END,
{
    lemma_entries_end(src, input, pos, Seq::empty());
}

/// The array marker is idempotent: a value under the marker applied twice is
/// encoded as it is under the marker applied once, to the same formatter
/// calls and so to the same bytes, or to the same failure.
pub proof fn law_marker_idempotent(
    value: Data,
    once: Data,
    twice: Data,
    name: Seq<char>,
    root: bool,
)
    requires
        is_marked(once, value),
        is_marked(twice, once),
    ensures
        emit(twice, name, root) == emit(once, name, root),
        encoding(twice, name) == encoding(once, name),
{
}

} // verus!
