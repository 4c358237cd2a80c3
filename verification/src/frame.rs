//! Tags and payloads that read back wherever they stand: what the decoder
//! makes of bytes that hold a tag, whatever lies before and behind them.

use crate::consts;
use crate::de::{
    parse_entries, parse_items, parse_payload, parse_tag, take_bytes, take_ints, take_longs,
};
use crate::error::Error;
use crate::formatter::{binary, binary_head, BinaryFormatter, Event};
use crate::map::put;
use crate::read::{take_text, take_u8, Source};
use crate::emit::{binary_all, fits_prefix, label, lemma_render_concat, lemma_render_one};
use crate::value::ValueView;
use crate::wire::{
    be_i16, be_i32, be_i64, be_i8, be_u32, be_u64, fits, i16_at, i32_at, i64_at, i8_at,
    lemma_signed_round_trip, lemma_u16_round_trip, lemma_u32_round_trip, lemma_u64_round_trip,
    u32_at, u64_at,
};
use vstd::prelude::*;
use vstd::utf8::{encode_utf8, encode_utf8_decode_utf8, encode_utf8_valid_utf8};

verus! {

/// Whether `bytes` lie in `input` at offset `pos`.
pub open spec fn holds_at(input: Seq<u8>, pos: int, bytes: Seq<u8>) -> bool {
    fits(input, pos, bytes.len() as int) && input.subrange(pos, pos + bytes.len()) == bytes
}

/// Whether `bytes` are a tag that decodes to the name `name` and the value
/// `value` wherever it stands in an input, whatever the kind of the input.
pub open spec fn stands_for(bytes: Seq<u8>, name: Seq<char>, value: ValueView) -> bool {
    forall|src: Source, input: Seq<u8>, pos: int|
        holds_at(input, pos, bytes) ==> #[trigger] parse_tag(src, input, pos) == Ok::<
            ((Seq<char>, ValueView), nat),
            Error,
        >(((name, value), bytes.len()))
}

/// A tag that reads back wherever it stands reads back where it is the
/// whole input.
pub proof fn lemma_whole(bytes: Seq<u8>, name: Seq<char>, value: ValueView)
    requires
        stands_for(bytes, name, value),
    ensures
        forall|src: Source| #[trigger]
            parse_tag(src, bytes, 0) == Ok::<((Seq<char>, ValueView), nat), Error>(
                ((name, value), bytes.len()),
            ),
{
    assert(bytes.subrange(0, bytes.len() as int) =~= bytes);
    assert(holds_at(bytes, 0, bytes));
}

/// Whether `bytes` are a payload of kind `id` that decodes to `value`
/// wherever it stands in an input, whatever the kind of the input.
pub open spec fn payload_stands(bytes: Seq<u8>, id: u8, value: ValueView) -> bool {
    forall|src: Source, input: Seq<u8>, pos: int|
        holds_at(input, pos, bytes) ==> #[trigger] parse_payload(src, id, input, pos) == Ok::<
            (ValueView, nat),
            Error,
        >((value, bytes.len()))
}

/// What one part of a compound stands for: the name and the value of a tag,
/// or nothing where the part is left out.
pub type Meaning = Option<(Seq<char>, ValueView)>;

/// Whether the bytes `part` stand for `meaning`: a tag that decodes to that
/// name and value wherever it stands, or no bytes at all.
pub open spec fn part_stands(part: Seq<u8>, meaning: Meaning) -> bool {
    match meaning {
        Some((name, value)) => stands_for(part, name, value),
        None => part.len() == 0,
    }
}

/// Rendering on the wire keeps no state: the bytes of two runs of formatter
/// calls are the bytes of the one followed by those of the other.
pub proof fn lemma_binary_concat(a: Seq<Event>, b: Seq<Event>)
    ensures
        binary_all(a + b) == binary_all(a) + binary_all(b),
{
    lemma_render_concat(BinaryFormatter, a, b);
}

/// The bytes of one formatter call.
pub proof fn lemma_binary_one(e: Event)
    ensures
        binary_all(seq![e]) == binary(e),
{
    lemma_render_one(BinaryFormatter, e);
}

/// A part of a part: what lies in `bytes` at `at` lies in `input` at
/// `pos + at`, where `bytes` lie in `input` at `pos`.
pub proof fn lemma_holds_within(input: Seq<u8>, pos: int, bytes: Seq<u8>, at: int, part: Seq<u8>)
    requires
        holds_at(input, pos, bytes),
        holds_at(bytes, at, part),
    ensures
        holds_at(input, pos + at, part),
{
    assert(input.subrange(pos + at, pos + at + part.len()) =~= input.subrange(
        pos,
        pos + bytes.len(),
    ).subrange(at, at + part.len()));
}

/// The parts of a concatenation lie at their offsets.
pub proof fn lemma_holds_parts(a: Seq<u8>, b: Seq<u8>)
    ensures
        holds_at(a + b, 0, a),
        holds_at(a + b, a.len() as int, b),
{
    assert((a + b).subrange(0, a.len() as int) =~= a);
    assert((a + b).subrange(a.len() as int, (a.len() + b.len()) as int) =~= b);
}

/// A byte that holds an 8-bit number reads back as that number.
pub proof fn lemma_i8_at(input: Seq<u8>, pos: int, x: i8)
    requires
        holds_at(input, pos, be_i8(x)),
    ensures
        fits(input, pos, 1),
        i8_at(input, pos) == x,
{
    lemma_signed_round_trip(x, 0, 0, 0);
    let part = input.subrange(pos, pos + 1);
    assert(part[0] == input[pos]);
}

/// Bytes that hold a 16-bit number read back as that number.
pub proof fn lemma_i16_at(input: Seq<u8>, pos: int, x: i16)
    requires
        holds_at(input, pos, be_i16(x)),
    ensures
        fits(input, pos, 2),
        i16_at(input, pos) == x,
{
    lemma_u16_round_trip(x as u16);
    lemma_signed_round_trip(0, x, 0, 0);
    let part = input.subrange(pos, pos + 2);
    assert(part[0] == input[pos] && part[1] == input[pos + 1]);
}

/// Bytes that hold a 32-bit pattern read back as that pattern.
pub proof fn lemma_u32_at(input: Seq<u8>, pos: int, x: u32)
    requires
        holds_at(input, pos, be_u32(x)),
    ensures
        fits(input, pos, 4),
        u32_at(input, pos) == x,
{
    lemma_u32_round_trip(x);
    let part = input.subrange(pos, pos + 4);
    assert(part[0] == input[pos] && part[1] == input[pos + 1] && part[2] == input[pos + 2]
        && part[3] == input[pos + 3]);
}

/// Bytes that hold a 32-bit number read back as that number.
pub proof fn lemma_i32_at(input: Seq<u8>, pos: int, x: i32)
    requires
        holds_at(input, pos, be_i32(x)),
    ensures
        fits(input, pos, 4),
        i32_at(input, pos) == x,
{
    lemma_u32_at(input, pos, x as u32);
    lemma_signed_round_trip(0, 0, x, 0);
}

/// Bytes that hold a 64-bit pattern read back as that pattern.
pub proof fn lemma_u64_at(input: Seq<u8>, pos: int, x: u64)
    requires
        holds_at(input, pos, be_u64(x)),
    ensures
        fits(input, pos, 8),
        u64_at(input, pos) == x,
{
    lemma_u64_round_trip(x);
    let part = input.subrange(pos, pos + 8);
    assert(part[0] == input[pos] && part[1] == input[pos + 1] && part[2] == input[pos + 2]
        && part[3] == input[pos + 3] && part[4] == input[pos + 4] && part[5] == input[pos + 5]
        && part[6] == input[pos + 6] && part[7] == input[pos + 7]);
}

/// Bytes that hold a 64-bit number read back as that number.
pub proof fn lemma_i64_at(input: Seq<u8>, pos: int, x: i64)
    requires
        holds_at(input, pos, be_i64(x)),
    ensures
        fits(input, pos, 8),
        i64_at(input, pos) == x,
{
    lemma_u64_at(input, pos, x as u64);
    lemma_signed_round_trip(0, 0, 0, x);
}

/// The bytes of length-prefixed text.
pub open spec fn text_bytes(text: Seq<char>) -> Seq<u8> {
    be_i16(encode_utf8(text).len() as i16) + encode_utf8(text)
}

/// Length-prefixed text reads back as the text.
pub proof fn lemma_text_at(src: Source, input: Seq<u8>, pos: int, text: Seq<char>)
    requires
        fits_prefix(text),
        holds_at(input, pos, text_bytes(text)),
    ensures
        take_text(src, input, pos) == Ok::<(Seq<char>, int), Error>(
            (text, pos + 2 + encode_utf8(text).len()),
        ),
{
    let bytes = encode_utf8(text);
    let len = bytes.len() as i16;
    lemma_holds_parts(be_i16(len), bytes);
    lemma_holds_within(input, pos, text_bytes(text), 0, be_i16(len));
    lemma_holds_within(input, pos, text_bytes(text), 2, bytes);
    lemma_i16_at(input, pos, len);
    encode_utf8_valid_utf8(text);
    encode_utf8_decode_utf8(text);
}

/// The head of a named tag reads back as the tag's kind and name, and what
/// follows the head in the bytes follows it in the input.
pub proof fn lemma_head_at(
    src: Source,
    input: Seq<u8>,
    pos: int,
    id: u8,
    name: Seq<char>,
    rest: Seq<u8>,
)
    requires
        fits_prefix(name),
        holds_at(input, pos, binary_head(id, label(name)) + rest),
    ensures
        take_u8(src, input, pos) == Ok::<(u8, int), Error>((id, pos + 1)),
        take_text(src, input, pos + 1) == Ok::<(Seq<char>, int), Error>(
            (name, pos + 3 + encode_utf8(name).len()),
        ),
        holds_at(input, pos + 3 + encode_utf8(name).len(), rest),
{
    let head = binary_head(id, label(name));
    let whole = head + rest;
    assert(head =~= seq![id] + text_bytes(name));
    lemma_holds_parts(head, rest);
    lemma_holds_parts(seq![id], text_bytes(name));
    lemma_holds_within(input, pos, whole, 0, head);
    lemma_holds_within(input, pos, whole, head.len() as int, rest);
    lemma_holds_within(input, pos, head, 0, seq![id]);
    lemma_holds_within(input, pos, head, 1, text_bytes(name));
    let first = input.subrange(pos, pos + 1);
    assert(first[0] == input[pos]);
    lemma_text_at(src, input, pos + 1, name);
}

/// The payloads of a byte, a short and an int read back.
pub proof fn lemma_small_payloads(a: i8, b: i16, c: i32)
    ensures
        payload_stands(be_i8(a), consts::TYPE_ID_BYTE, ValueView::Byte(a)),
        payload_stands(be_i16(b), consts::TYPE_ID_SHORT, ValueView::Short(b)),
        payload_stands(be_i32(c), consts::TYPE_ID_INT, ValueView::Int(c)),
{
    assert forall|src: Source, input: Seq<u8>, pos: int| holds_at(input, pos, be_i8(a)) implies (
    #[trigger] parse_payload(src, consts::TYPE_ID_BYTE, input, pos)) == Ok::<
        (ValueView, nat),
        Error,
    >((ValueView::Byte(a), be_i8(a).len())) by {
        lemma_i8_at(input, pos, a);
    }
    assert forall|src: Source, input: Seq<u8>, pos: int| holds_at(input, pos, be_i16(b)) implies (
    #[trigger] parse_payload(src, consts::TYPE_ID_SHORT, input, pos)) == Ok::<
        (ValueView, nat),
        Error,
    >((ValueView::Short(b), be_i16(b).len())) by {
        lemma_i16_at(input, pos, b);
    }
    assert forall|src: Source, input: Seq<u8>, pos: int| holds_at(input, pos, be_i32(c)) implies (
    #[trigger] parse_payload(src, consts::TYPE_ID_INT, input, pos)) == Ok::<
        (ValueView, nat),
        Error,
    >((ValueView::Int(c), be_i32(c).len())) by {
        lemma_i32_at(input, pos, c);
    }
}

/// The payloads of a long, a float and a double read back.
pub proof fn lemma_large_payloads(a: i64, b: u32, c: u64)
    ensures
        payload_stands(be_i64(a), consts::TYPE_ID_LONG, ValueView::Long(a)),
        payload_stands(be_u32(b), consts::TYPE_ID_FLOAT, ValueView::Float(b)),
        payload_stands(be_u64(c), consts::TYPE_ID_DOUBLE, ValueView::Double(c)),
{
    assert forall|src: Source, input: Seq<u8>, pos: int| holds_at(input, pos, be_i64(a)) implies (
    #[trigger] parse_payload(src, consts::TYPE_ID_LONG, input, pos)) == Ok::<
        (ValueView, nat),
        Error,
    >((ValueView::Long(a), be_i64(a).len())) by {
        lemma_i64_at(input, pos, a);
    }
    assert forall|src: Source, input: Seq<u8>, pos: int| holds_at(input, pos, be_u32(b)) implies (
    #[trigger] parse_payload(src, consts::TYPE_ID_FLOAT, input, pos)) == Ok::<
        (ValueView, nat),
        Error,
    >((ValueView::Float(b), be_u32(b).len())) by {
        lemma_u32_at(input, pos, b);
    }
    assert forall|src: Source, input: Seq<u8>, pos: int| holds_at(input, pos, be_u64(c)) implies (
    #[trigger] parse_payload(src, consts::TYPE_ID_DOUBLE, input, pos)) == Ok::<
        (ValueView, nat),
        Error,
    >((ValueView::Double(c), be_u64(c).len())) by {
        lemma_u64_at(input, pos, c);
    }
}

/// The payload of a string reads back.
pub proof fn lemma_text_payload(text: Seq<char>)
    requires
        fits_prefix(text),
    ensures
        payload_stands(text_bytes(text), consts::TYPE_ID_STRING, ValueView::String(text)),
{
    assert forall|src: Source, input: Seq<u8>, pos: int|
        holds_at(input, pos, text_bytes(text)) implies (#[trigger] parse_payload(
        src,
        consts::TYPE_ID_STRING,
        input,
        pos,
    )) == Ok::<(ValueView, nat), Error>((ValueView::String(text), text_bytes(text).len())) by {
        lemma_text_at(src, input, pos, text);
    }
}

/// A tag is a head and a payload: where the payload reads back, the tag
/// does.
pub proof fn lemma_tag_stands(id: u8, name: Seq<char>, payload: Seq<u8>, value: ValueView)
    requires
        fits_prefix(name),
        payload_stands(payload, id, value),
    ensures
        stands_for(binary_head(id, label(name)) + payload, name, value),
{
    let bytes = binary_head(id, label(name)) + payload;
    assert forall|src: Source, input: Seq<u8>, pos: int| holds_at(input, pos, bytes) implies (
    #[trigger] parse_tag(src, input, pos)) == Ok::<((Seq<char>, ValueView), nat), Error>(
        ((name, value), bytes.len()),
    ) by {
        lemma_head_at(src, input, pos, id, name, payload);
        let at = pos + 3 + encode_utf8(name).len();
        assert(parse_payload(src, id, input, at) == Ok::<(ValueView, nat), Error>(
            (value, payload.len()),
        ));
    }
}

/// The entries of the compound that the parts from the `k`th on make, put to
/// the entries `acc`.
pub open spec fn gather(meanings: Seq<Meaning>, k: nat, acc: Seq<(Seq<char>, ValueView)>) -> Seq<
    (Seq<char>, ValueView),
>
    decreases meanings.len() - k,
{
    if k >= meanings.len() {
        acc
    } else {
        gather(
            meanings,
            k + 1,
            match meanings[k as int] {
                Some((name, value)) => put(acc, name, value),
                None => acc,
            },
        )
    }
}

/// The bytes of the first `k` parts.
pub open spec fn joined(parts: Seq<Seq<u8>>, k: nat) -> Seq<u8>
    decreases k,
{
    if k == 0 || k > parts.len() {
        Seq::empty()
    } else {
        joined(parts, (k - 1) as nat) + parts[k - 1]
    }
}

/// The bytes of a compound from its `k`th part on, the end tag included.
pub open spec fn rest_bytes(parts: Seq<Seq<u8>>, k: nat) -> Seq<u8>
    decreases parts.len() - k,
{
    if k >= parts.len() {
        seq![consts::TYPE_ID_END]
    } else {
        parts[k as int] + rest_bytes(parts, k + 1)
    }
}

/// The bytes of the first `k` parts and the bytes from the `k`th part on are
/// together the bytes of all the parts and the end tag.
pub proof fn lemma_rest_bytes(parts: Seq<Seq<u8>>, k: nat)
    requires
        k <= parts.len(),
    ensures
        joined(parts, k) + rest_bytes(parts, k) == joined(parts, parts.len()) + seq![
            consts::TYPE_ID_END,
        ],
    decreases parts.len() - k,
{
    if k < parts.len() {
        lemma_rest_bytes(parts, k + 1);
        let b = joined(parts, k);
        let f = parts[k as int];
        let r = rest_bytes(parts, k + 1);
        assert(b + (f + r) =~= (b + f) + r);
    }
}

/// The entries of a compound read back from the bytes of its parts: where
/// the bytes from the `k`th part on lie at `pos`, the decoder, with the
/// entries `acc` at hand, ends behind the end tag with the entries of all
/// the parts.
pub proof fn lemma_parts_at(
    src: Source,
    input: Seq<u8>,
    pos: int,
    parts: Seq<Seq<u8>>,
    meanings: Seq<Meaning>,
    k: nat,
    acc: Seq<(Seq<char>, ValueView)>,
)
    requires
        k <= parts.len() == meanings.len(),
        forall|i: int| 0 <= i < parts.len() ==> part_stands(#[trigger] parts[i], meanings[i]),
        holds_at(input, pos, rest_bytes(parts, k)),
    ensures
        parse_entries(src, input, pos, acc) == Ok::<(Seq<(Seq<char>, ValueView)>, int), Error>(
            (gather(meanings, k, acc), pos + rest_bytes(parts, k).len()),
        ),
    decreases parts.len() - k,
{
    if k >= parts.len() {
        let end = input.subrange(pos, pos + 1);
        assert(end[0] == input[pos]);
    } else {
        let f = parts[k as int];
        let r = rest_bytes(parts, k + 1);
        assert(part_stands(f, meanings[k as int]));
        lemma_holds_parts(f, r);
        lemma_holds_within(input, pos, f + r, 0, f);
        lemma_holds_within(input, pos, f + r, f.len() as int, r);
        match meanings[k as int] {
            Some((name, v)) => {
                assert(parse_tag(src, input, pos) == Ok::<((Seq<char>, ValueView), nat), Error>(
                    ((name, v), f.len()),
                ));
                lemma_parts_at(src, input, pos + f.len(), parts, meanings, k + 1, put(
                    acc,
                    name,
                    v,
                ));
            },
            None => {
                assert(f =~= Seq::<u8>::empty());
                lemma_parts_at(src, input, pos, parts, meanings, k + 1, acc);
            },
        }
    }
}

/// A compound round-trips when its parts do: the bytes of a head of kind
/// compound under the name `name`, of parts that stand for `meanings`, and of
/// the end tag decode, wherever they stand, to that name and to the compound
/// of what the parts stand for.
pub proof fn lemma_compound_stands(name: Seq<char>, parts: Seq<Seq<u8>>, meanings: Seq<Meaning>)
    requires
        fits_prefix(name),
        parts.len() == meanings.len(),
        forall|i: int| 0 <= i < parts.len() ==> part_stands(#[trigger] parts[i], meanings[i]),
    ensures
        stands_for(
            binary_head(consts::TYPE_ID_COMPOUND, label(name)) + (joined(parts, parts.len())
                + seq![consts::TYPE_ID_END]),
            name,
            ValueView::Compound(gather(meanings, 0, Seq::empty())),
        ),
{
    let rest = rest_bytes(parts, 0);
    lemma_rest_bytes(parts, 0);
    assert(joined(parts, 0) + rest =~= rest);
    let bytes = binary_head(consts::TYPE_ID_COMPOUND, label(name)) + rest;
    assert forall|src: Source, input: Seq<u8>, pos: int| holds_at(input, pos, bytes) implies (
    #[trigger] parse_tag(src, input, pos)) == Ok::<((Seq<char>, ValueView), nat), Error>(
        ((name, ValueView::Compound(gather(meanings, 0, Seq::empty()))), bytes.len()),
    ) by {
        lemma_head_at(src, input, pos, consts::TYPE_ID_COMPOUND, name, rest);
        let at = pos + 3 + encode_utf8(name).len();
        lemma_parts_at(src, input, at, parts, meanings, 0, Seq::empty());
    }
}

/// The payload of a compound reads back when its parts do.
pub proof fn lemma_compound_payload(parts: Seq<Seq<u8>>, meanings: Seq<Meaning>)
    requires
        parts.len() == meanings.len(),
        forall|i: int| 0 <= i < parts.len() ==> part_stands(#[trigger] parts[i], meanings[i]),
    ensures
        payload_stands(
            joined(parts, parts.len()) + seq![consts::TYPE_ID_END],
            consts::TYPE_ID_COMPOUND,
            ValueView::Compound(gather(meanings, 0, Seq::empty())),
        ),
{
    let rest = rest_bytes(parts, 0);
    lemma_rest_bytes(parts, 0);
    assert(joined(parts, 0) + rest =~= rest);
    assert forall|src: Source, input: Seq<u8>, pos: int| holds_at(input, pos, rest) implies (
    #[trigger] parse_payload(src, consts::TYPE_ID_COMPOUND, input, pos)) == Ok::<
        (ValueView, nat),
        Error,
    >((ValueView::Compound(gather(meanings, 0, Seq::empty())), rest.len())) by {
        lemma_parts_at(src, input, pos, parts, meanings, 0, Seq::empty());
    }
}

/// The bytes of the parts from the `k`th on.
pub open spec fn tail_bytes(parts: Seq<Seq<u8>>, k: nat) -> Seq<u8>
    decreases parts.len() - k,
{
    if k >= parts.len() {
        Seq::empty()
    } else {
        parts[k as int] + tail_bytes(parts, k + 1)
    }
}

/// The bytes of the first `k` parts and the bytes from the `k`th part on are
/// together the bytes of all the parts.
pub proof fn lemma_tail_bytes(parts: Seq<Seq<u8>>, k: nat)
    requires
        k <= parts.len(),
    ensures
        joined(parts, k) + tail_bytes(parts, k) == joined(parts, parts.len()),
    decreases parts.len() - k,
{
    if k < parts.len() {
        lemma_tail_bytes(parts, k + 1);
        let b = joined(parts, k);
        let f = parts[k as int];
        let r = tail_bytes(parts, k + 1);
        assert(b + (f + r) =~= (b + f) + r);
    } else {
        assert(joined(parts, k) + Seq::<u8>::empty() =~= joined(parts, k));
    }
}

/// The elements of a list read back from their payloads: where the payloads
/// from the `k`th on lie at `pos`, the decoder, with the values `acc` at
/// hand, ends behind the last payload with the values of all of them.
pub proof fn lemma_items_at(
    src: Source,
    id: u8,
    input: Seq<u8>,
    pos: int,
    parts: Seq<Seq<u8>>,
    values: Seq<ValueView>,
    k: nat,
    acc: Seq<ValueView>,
)
    requires
        k <= parts.len() == values.len(),
        forall|i: int| 0 <= i < parts.len() ==> payload_stands(#[trigger] parts[i], id, values[i]),
        holds_at(input, pos, tail_bytes(parts, k)),
    ensures
        parse_items(src, id, input, pos, (parts.len() - k) as nat, acc) == Ok::<
            (Seq<ValueView>, int),
            Error,
        >((acc + values.skip(k as int), pos + tail_bytes(parts, k).len())),
    decreases parts.len() - k,
{
    if k >= parts.len() {
        assert(acc + values.skip(k as int) =~= acc);
    } else {
        let f = parts[k as int];
        let r = tail_bytes(parts, k + 1);
        assert(payload_stands(f, id, values[k as int]));
        lemma_holds_parts(f, r);
        lemma_holds_within(input, pos, f + r, 0, f);
        lemma_holds_within(input, pos, f + r, f.len() as int, r);
        assert(parse_payload(src, id, input, pos) == Ok::<(ValueView, nat), Error>(
            (values[k as int], f.len()),
        ));
        lemma_items_at(src, id, input, pos + f.len(), parts, values, k + 1, acc.push(
            values[k as int],
        ));
        assert(acc.push(values[k as int]) + values.skip(k as int + 1) =~= acc + values.skip(
            k as int,
        ));
    }
}

/// The bytes of the header of a list: the head, the kind of the elements,
/// their number.
pub open spec fn list_head_bytes(name: Seq<char>, id: u8, n: nat) -> Seq<u8> {
    binary_head(consts::TYPE_ID_LIST, label(name)) + (seq![id] + be_i32(n as i32))
}

/// A list round-trips when its elements do: the bytes of a list's header,
/// which declares the kind `id` and as many elements as there are payloads,
/// and of payloads of that kind decode, wherever they stand, to the name and
/// to the list of what the payloads stand for.
pub proof fn lemma_list_stands(
    name: Seq<char>,
    id: u8,
    parts: Seq<Seq<u8>>,
    values: Seq<ValueView>,
)
    requires
        fits_prefix(name),
        parts.len() == values.len() <= i32::MAX,
        forall|i: int| 0 <= i < parts.len() ==> payload_stands(#[trigger] parts[i], id, values[i]),
    ensures
        stands_for(
            list_head_bytes(name, id, parts.len()) + joined(parts, parts.len()),
            name,
            ValueView::List(values),
        ),
{
    let n = parts.len();
    let body = joined(parts, n);
    let payload = (seq![id] + be_i32(n as i32)) + body;
    lemma_tail_bytes(parts, 0);
    assert(joined(parts, 0) + tail_bytes(parts, 0) =~= tail_bytes(parts, 0));
    assert forall|src: Source, input: Seq<u8>, pos: int| holds_at(input, pos, payload) implies (
    #[trigger] parse_payload(src, consts::TYPE_ID_LIST, input, pos)) == Ok::<
        (ValueView, nat),
        Error,
    >((ValueView::List(values), payload.len())) by {
        let head = seq![id] + be_i32(n as i32);
        lemma_holds_parts(head, body);
        lemma_holds_parts(seq![id], be_i32(n as i32));
        lemma_holds_within(input, pos, payload, 0, head);
        lemma_holds_within(input, pos, payload, 5, body);
        lemma_holds_within(input, pos, head, 0, seq![id]);
        lemma_holds_within(input, pos, head, 1, be_i32(n as i32));
        let first = input.subrange(pos, pos + 1);
        assert(first[0] == input[pos]);
        lemma_i32_at(input, pos + 1, n as i32);
        lemma_items_at(src, id, input, pos + 5, parts, values, 0, Seq::empty());
        assert(Seq::<ValueView>::empty() + values.skip(0) =~= values);
    }
    lemma_tag_stands(consts::TYPE_ID_LIST, name, payload, ValueView::List(values));
    assert(list_head_bytes(name, id, n) + body =~= binary_head(
        consts::TYPE_ID_LIST,
        label(name),
    ) + payload);
}

/// Parts of one width lie one behind the other at the multiples of that
/// width.
pub proof fn lemma_joined_fixed(parts: Seq<Seq<u8>>, width: nat, k: nat)
    requires
        k <= parts.len(),
        forall|i: int| 0 <= i < parts.len() ==> (#[trigger] parts[i]).len() == width,
    ensures
        joined(parts, k).len() == width * k,
        forall|i: int| 0 <= i < k ==> holds_at(joined(parts, k), width * i, #[trigger] parts[i]),
    decreases k,
{
    if k > 0 {
        lemma_joined_fixed(parts, width, (k - 1) as nat);
        let before = joined(parts, (k - 1) as nat);
        let last = parts[k - 1];
        let all = joined(parts, k);
        assert(width * k == width * (k - 1) + width) by (nonlinear_arith);
        lemma_holds_parts(before, last);
        assert forall|i: int| 0 <= i < k implies holds_at(all, width * i, #[trigger] parts[i]) by {
            if i < k - 1 {
                assert(width * i + width <= width * (k - 1)) by (nonlinear_arith)
                    requires
                        0 <= i < k - 1,
                ;
                lemma_holds_within(all, 0, before, width * i, parts[i]);
            } else {
                assert(width * i == width * (k - 1));
            }
        }
    }
}

/// The payloads of the elements of a byte array.
pub open spec fn byte_parts(values: Seq<i8>) -> Seq<Seq<u8>> {
    Seq::new(values.len(), |i: int| be_i8(values[i]))
}

/// The payloads of the elements of an int array.
pub open spec fn int_parts(values: Seq<i32>) -> Seq<Seq<u8>> {
    Seq::new(values.len(), |i: int| be_i32(values[i]))
}

/// The payloads of the elements of a long array.
pub open spec fn long_parts(values: Seq<i64>) -> Seq<Seq<u8>> {
    Seq::new(values.len(), |i: int| be_i64(values[i]))
}

/// A byte array round-trips: the head of a byte array under `name`, the
/// number of `values` and their bytes decode, wherever they stand, to the
/// name and to the byte array of `values`.
pub proof fn lemma_byte_array_stands(name: Seq<char>, values: Seq<i8>)
    requires
        fits_prefix(name),
        values.len() <= i32::MAX,
    ensures
        stands_for(
            binary_head(consts::TYPE_ID_BYTE_ARRAY, label(name)) + (be_i32(values.len() as i32)
                + joined(byte_parts(values), values.len())),
            name,
            ValueView::ByteArray(values),
        ),
{
    let n = values.len();
    let parts = byte_parts(values);
    let body = joined(parts, n);
    let payload = be_i32(n as i32) + body;
    lemma_joined_fixed(parts, 1, n);
    assert forall|src: Source, input: Seq<u8>, pos: int| holds_at(input, pos, payload) implies (
    #[trigger] parse_payload(src, consts::TYPE_ID_BYTE_ARRAY, input, pos)) == Ok::<
        (ValueView, nat),
        Error,
    >((ValueView::ByteArray(values), payload.len())) by {
        lemma_holds_parts(be_i32(n as i32), body);
        lemma_holds_within(input, pos, payload, 0, be_i32(n as i32));
        lemma_holds_within(input, pos, payload, 4, body);
        lemma_i32_at(input, pos, n as i32);
        let read = take_bytes(src, input, pos + 4, n);
        assert(read is Ok);
        assert forall|i: int| 0 <= i < n implies read->Ok_0.0[i] == values[i] by {
            assert(holds_at(body, 1 * i, parts[i]));
            lemma_holds_within(input, pos + 4, body, i, be_i8(values[i]));
            lemma_i8_at(input, pos + 4 + i, values[i]);
        }
        assert(read->Ok_0.0 =~= values);
    }
    lemma_tag_stands(
        consts::TYPE_ID_BYTE_ARRAY,
        name,
        payload,
        ValueView::ByteArray(values),
    );
}

/// An int array round-trips: the head of an int array under `name`, the
/// number of `values` and their bytes decode, wherever they stand, to the
/// name and to the int array of `values`.
pub proof fn lemma_int_array_stands(name: Seq<char>, values: Seq<i32>)
    requires
        fits_prefix(name),
        values.len() <= i32::MAX,
    ensures
        stands_for(
            binary_head(consts::TYPE_ID_INT_ARRAY, label(name)) + (be_i32(values.len() as i32)
                + joined(int_parts(values), values.len())),
            name,
            ValueView::IntArray(values),
        ),
{
    let n = values.len();
    let parts = int_parts(values);
    let body = joined(parts, n);
    let payload = be_i32(n as i32) + body;
    lemma_joined_fixed(parts, 4, n);
    assert forall|src: Source, input: Seq<u8>, pos: int| holds_at(input, pos, payload) implies (
    #[trigger] parse_payload(src, consts::TYPE_ID_INT_ARRAY, input, pos)) == Ok::<
        (ValueView, nat),
        Error,
    >((ValueView::IntArray(values), payload.len())) by {
        lemma_holds_parts(be_i32(n as i32), body);
        lemma_holds_within(input, pos, payload, 0, be_i32(n as i32));
        lemma_holds_within(input, pos, payload, 4, body);
        lemma_i32_at(input, pos, n as i32);
        let read = take_ints(src, input, pos + 4, n);
        assert(read is Ok);
        assert forall|i: int| 0 <= i < n implies read->Ok_0.0[i] == values[i] by {
            assert(holds_at(body, 4 * i, parts[i]));
            lemma_holds_within(input, pos + 4, body, 4 * i, be_i32(values[i]));
            lemma_i32_at(input, pos + 4 + 4 * i, values[i]);
        }
        assert(read->Ok_0.0 =~= values);
    }
    lemma_tag_stands(consts::TYPE_ID_INT_ARRAY, name, payload, ValueView::IntArray(values));
}

/// A long array round-trips: the head of a long array under `name`, the
/// number of `values` and their bytes decode, wherever they stand, to the
/// name and to the long array of `values`.
pub proof fn lemma_long_array_stands(name: Seq<char>, values: Seq<i64>)
    requires
        fits_prefix(name),
        values.len() <= i32::MAX,
    ensures
        stands_for(
            binary_head(consts::TYPE_ID_LONG_ARRAY, label(name)) + (be_i32(values.len() as i32)
                + joined(long_parts(values), values.len())),
            name,
            ValueView::LongArray(values),
        ),
{
    let n = values.len();
    let parts = long_parts(values);
    let body = joined(parts, n);
    let payload = be_i32(n as i32) + body;
    lemma_joined_fixed(parts, 8, n);
    assert forall|src: Source, input: Seq<u8>, pos: int| holds_at(input, pos, payload) implies (
    #[trigger] parse_payload(src, consts::TYPE_ID_LONG_ARRAY, input, pos)) == Ok::<
        (ValueView, nat),
        Error,
    >((ValueView::LongArray(values), payload.len())) by {
        lemma_holds_parts(be_i32(n as i32), body);
        lemma_holds_within(input, pos, payload, 0, be_i32(n as i32));
        lemma_holds_within(input, pos, payload, 4, body);
        lemma_i32_at(input, pos, n as i32);
        let read = take_longs(src, input, pos + 4, n);
        assert(read is Ok);
        assert forall|i: int| 0 <= i < n implies read->Ok_0.0[i] == values[i] by {
            assert(holds_at(body, 8 * i, parts[i]));
            lemma_holds_within(input, pos + 4, body, 8 * i, be_i64(values[i]));
            lemma_i64_at(input, pos + 4 + 8 * i, values[i]);
        }
        assert(read->Ok_0.0 =~= values);
    }
    lemma_tag_stands(consts::TYPE_ID_LONG_ARRAY, name, payload, ValueView::LongArray(values));
}

} // verus!
