use coruscant_nbt::as_nbt_array;
use coruscant_nbt::data::Data;
use coruscant_nbt::error::ErrorCode;
use coruscant_nbt::root::Root;
use coruscant_nbt::formatter::{BinaryFormatter, Formatter};
use coruscant_nbt::ser::{
    to_vec, to_writer, SerializeArray, SerializeCompound, SerializeList, Serializer,
};

fn field(name: &str, value: Data) -> (String, Data) {
    (name.to_string(), value)
}

fn record(name: &str, fields: Vec<(String, Data)>) -> Data {
    Data::Struct(name.to_string(), fields)
}

fn list(items: Vec<Data>) -> Data {
    Data::Sequence { sized: true, items }
}

fn text(s: &str) -> Data {
    Data::Str(s.to_string())
}

fn failure(value: &Data) -> ErrorCode {
    let e = to_vec(Root::from(("r", value))).unwrap_err();
    assert_eq!(e.index, 0);
    e.code
}

#[test]
fn struct_with_one_byte_field_under_empty_name() {
    let value = record("", vec![field("a", Data::I8(-15))]);
    let bytes = to_vec(Root::from(("", &value))).unwrap();
    assert_eq!(bytes, vec![0x0A, 0x00, 0x00, 0x01, 0x00, 0x01, 0x61, 0xF1, 0x00]);
}

#[test]
fn bare_value_stands_under_empty_name() {
    let value = record("", vec![field("a", Data::I8(-15))]);
    let bytes = to_vec(Root::from(&value)).unwrap();
    assert_eq!(bytes, vec![0x0A, 0x00, 0x00, 0x01, 0x00, 0x01, 0x61, 0xF1, 0x00]);
}

#[test]
fn empty_root_name_gives_way_to_struct_name() {
    let value = record("Wrap", vec![field("a", Data::I8(-15))]);
    let bytes = to_vec(Root::from(("", &value))).unwrap();
    assert_eq!(
        bytes,
        vec![0x0A, 0x00, 0x04, b'W', b'r', b'a', b'p', 0x01, 0x00, 0x01, 0x61, 0xF1, 0x00]
    );
}

#[test]
fn inner_struct_keeps_its_field_name() {
    // once the root has its name, an empty name further in stays empty
    let inner = record("Inner", vec![]);
    let value = record("Outer", vec![field("", inner)]);
    let bytes = to_vec(Root::from(("", &value))).unwrap();
    assert_eq!(
        bytes,
        vec![0x0A, 0x00, 0x05, b'O', b'u', b't', b'e', b'r', 0x0A, 0x00, 0x00, 0x00, 0x00]
    );
}

#[test]
fn level_with_byte_test() {
    let value = record("TestStruct", vec![field("byteTest", Data::I8(127))]);
    let bytes = to_vec(Root::from(("Level", &value))).unwrap();
    let mut expected = vec![0x0A, 0x00, 0x05, 0x4C, 0x65, 0x76, 0x65, 0x6C];
    expected.extend_from_slice(&[
        0x01, 0x00, 0x08, 0x62, 0x79, 0x74, 0x65, 0x54, 0x65, 0x73, 0x74, 0x7F,
    ]);
    expected.push(0x00);
    assert_eq!(bytes, expected);
}

#[test]
fn struct_within_struct() {
    let inner = record("Inner", vec![field("a", Data::I8(-15))]);
    let value = record("Wrap", vec![field("inner", inner)]);
    let bytes = to_vec(Root::from(("wrap", &value))).unwrap();
    assert_eq!(
        bytes,
        vec![
            0x0A, 0x00, 0x04, 0x77, 0x72, 0x61, 0x70, 0x0A, 0x00, 0x05, 0x69, 0x6E, 0x6E, 0x65,
            0x72, 0x01, 0x00, 0x01, 0x61, 0xF1, 0x00, 0x00
        ]
    );
}

#[test]
fn list_of_ints_in_compound() {
    let xs = list(vec![Data::I32(1), Data::I32(2), Data::I32(3)]);
    let value = record("R", vec![field("xs", xs)]);
    let bytes = to_vec(Root::from(("r", &value))).unwrap();
    assert_eq!(
        bytes,
        vec![
            0x0A, 0x00, 0x01, 0x72, 0x09, 0x00, 0x02, 0x78, 0x73, 0x03, 0x00, 0x00, 0x00, 0x03,
            0x00, 0x00, 0x00, 0x01, 0x00, 0x00, 0x00, 0x02, 0x00, 0x00, 0x00, 0x03, 0x00
        ]
    );
}

#[test]
fn tuple_is_a_list() {
    let xs = Data::Tuple(vec![Data::I16(1), Data::I16(-2)]);
    let bytes = to_vec(Root::from(("t", &xs))).unwrap();
    assert_eq!(
        bytes,
        vec![0x09, 0x00, 0x01, b't', 0x02, 0x00, 0x00, 0x00, 0x02, 0x00, 0x01, 0xFF, 0xFE]
    );
}

#[test]
fn byte_array_in_compound() {
    let ba = as_nbt_array::serialize(list(vec![Data::I8(1), Data::I8(2), Data::I8(3)]));
    let value = record("R", vec![field("ba", ba)]);
    let bytes = to_vec(Root::from(("r", &value))).unwrap();
    assert_eq!(
        bytes,
        vec![
            0x0A, 0x00, 0x01, 0x72, 0x07, 0x00, 0x02, 0x62, 0x61, 0x00, 0x00, 0x00, 0x03, 0x01,
            0x02, 0x03, 0x00
        ]
    );
}

#[test]
fn int_array_and_long_array() {
    let ia = as_nbt_array::serialize(list(vec![Data::I32(19132), Data::I32(-25565)]));
    let bytes = to_vec(Root::from(("i", &ia))).unwrap();
    assert_eq!(
        bytes,
        vec![
            0x0B, 0x00, 0x01, b'i', 0x00, 0x00, 0x00, 0x02, 0x00, 0x00, 0x4A, 0xBC, 0xFF, 0xFF,
            0x9C, 0x23
        ]
    );
    let la = as_nbt_array::serialize(list(vec![Data::I64(-2)]));
    let bytes = to_vec(Root::from(("l", &la))).unwrap();
    assert_eq!(
        bytes,
        vec![
            0x0C, 0x00, 0x01, b'l', 0x00, 0x00, 0x00, 0x01, 0xFF, 0xFF, 0xFF, 0xFF, 0xFF, 0xFF,
            0xFF, 0xFE
        ]
    );
}

#[test]
fn marker_twice_is_marker_once() {
    let seq = || list(vec![Data::I8(1), Data::I8(2), Data::I8(3)]);
    let once = as_nbt_array::serialize(seq());
    let twice = as_nbt_array::serialize(as_nbt_array::serialize(seq()));
    assert_eq!(
        to_vec(Root::from(("ba", &once))).unwrap(),
        to_vec(Root::from(("ba", &twice))).unwrap()
    );
}

#[test]
fn empty_array_leaves_no_trace() {
    let value = record("R", vec![field("ba", as_nbt_array::serialize(list(vec![])))]);
    let bytes = to_vec(Root::from(("r", &value))).unwrap();
    assert_eq!(bytes, vec![0x0A, 0x00, 0x01, 0x72, 0x00]);
}

#[test]
fn empty_list() {
    let bytes = to_vec(Root::from(("xs", &list(vec![])))).unwrap();
    assert_eq!(bytes, vec![0x09, 0x00, 0x02, 0x78, 0x73, 0x00, 0x00, 0x00, 0x00, 0x00]);
}

#[test]
fn empty_compound() {
    let bytes = to_vec(Root::from(("e", &record("Empty", vec![])))).unwrap();
    assert_eq!(bytes, vec![0x0A, 0x00, 0x01, 0x65, 0x00]);
    let bytes = to_vec(Root::from(("u", &Data::UnitStruct("Unit".to_string())))).unwrap();
    assert_eq!(bytes, vec![0x0A, 0x00, 0x01, 0x75, 0x00]);
    let bytes = to_vec(Root::from(("m", &Data::Table(vec![])))).unwrap();
    assert_eq!(bytes, vec![0x0A, 0x00, 0x01, 0x6D, 0x00]);
}

#[test]
fn empty_string() {
    let bytes = to_vec(Root::from(("s", &text("")))).unwrap();
    assert_eq!(bytes, vec![0x08, 0x00, 0x01, 0x73, 0x00, 0x00]);
}

#[test]
fn absent_field_is_omitted() {
    let value = record(
        "Book",
        vec![field("resolved", Data::Nothing), field("pages", Data::Just(Box::new(Data::I8(3))))],
    );
    let bytes = to_vec(Root::from(("b", &value))).unwrap();
    assert_eq!(
        bytes,
        vec![0x0A, 0x00, 0x01, b'b', 0x01, 0x00, 0x05, b'p', b'a', b'g', b'e', b's', 0x03, 0x00]
    );
}

#[test]
fn scalars_on_the_wire() {
    assert_eq!(to_vec(Root::from(("b", &Data::Bool(true)))).unwrap(), vec![1, 0, 1, b'b', 1]);
    assert_eq!(to_vec(Root::from(("b", &Data::Bool(false)))).unwrap(), vec![1, 0, 1, b'b', 0]);
    assert_eq!(
        to_vec(Root::from(("s", &Data::I16(-2)))).unwrap(),
        vec![2, 0, 1, b's', 0xFF, 0xFE]
    );
    assert_eq!(
        to_vec(Root::from(("i", &Data::I32(0x01020304)))).unwrap(),
        vec![3, 0, 1, b'i', 1, 2, 3, 4]
    );
    assert_eq!(
        to_vec(Root::from(("l", &Data::I64(0x0102030405060708)))).unwrap(),
        vec![4, 0, 1, b'l', 1, 2, 3, 4, 5, 6, 7, 8]
    );
    let half = Data::F32 { bits: 0.5f32.to_bits(), text: "0.5".to_string() };
    assert_eq!(to_vec(Root::from(("f", &half))).unwrap(), vec![5, 0, 1, b'f', 0x3F, 0, 0, 0]);
    let half = Data::F64 { bits: 0.5f64.to_bits(), text: "0.5".to_string() };
    assert_eq!(
        to_vec(Root::from(("d", &half))).unwrap(),
        vec![6, 0, 1, b'd', 0x3F, 0xE0, 0, 0, 0, 0, 0, 0]
    );
    assert_eq!(
        to_vec(Root::from(("t", &text("hi")))).unwrap(),
        vec![8, 0, 1, b't', 0, 2, b'h', b'i']
    );
}

#[test]
fn char_is_a_string_of_its_utf8_bytes() {
    assert_eq!(
        to_vec(Root::from(("c", &Data::Char('a')))).unwrap(),
        vec![8, 0, 1, b'c', 0, 1, b'a']
    );
    assert_eq!(
        to_vec(Root::from(("c", &Data::Char('\u{e9}')))).unwrap(),
        vec![8, 0, 1, b'c', 0, 2, 0xC3, 0xA9]
    );
    let xs = list(vec![Data::Char('\u{20ac}')]);
    assert_eq!(
        to_vec(Root::from(("", &xs))).unwrap(),
        vec![9, 0, 0, 8, 0, 0, 0, 1, 0, 3, 0xE2, 0x82, 0xAC]
    );
}

#[test]
fn map_keys_name_the_values() {
    let value = Data::Table(vec![
        (text("nick"), text("luojia65")),
        (Data::UnitVariant("Kind".to_string()), Data::I8(1)),
        (Data::NewtypeStruct("Id".to_string(), Box::new(text("id"))), Data::Nothing),
    ]);
    let bytes = to_vec(Root::from(("person", &value))).unwrap();
    let mut expected = vec![0x0A, 0, 6, b'p', b'e', b'r', b's', b'o', b'n'];
    expected.extend_from_slice(&[8, 0, 4, b'n', b'i', b'c', b'k', 0, 8]);
    expected.extend_from_slice(b"luojia65");
    expected.extend_from_slice(&[1, 0, 4, b'K', b'i', b'n', b'd', 1]);
    expected.push(0);
    assert_eq!(bytes, expected);
}

#[test]
fn list_of_compounds() {
    let xs = list(vec![
        record("A", vec![field("x", Data::I8(1))]),
        Data::Table(vec![(text("y"), Data::I8(2))]),
    ]);
    let bytes = to_vec(Root::from(("xs", &xs))).unwrap();
    assert_eq!(
        bytes,
        vec![
            9, 0, 2, b'x', b's', 10, 0, 0, 0, 2, 1, 0, 1, b'x', 1, 0, 1, 0, 1, b'y', 2, 0
        ]
    );
}

#[test]
fn list_of_strings_and_options() {
    let xs = list(vec![
        text("a"),
        Data::Just(Box::new(Data::UnitVariant("b".to_string()))),
        Data::NewtypeStruct("W".to_string(), Box::new(Data::Char('c'))),
    ]);
    let bytes = to_vec(Root::from(("", &xs))).unwrap();
    assert_eq!(
        bytes,
        vec![9, 0, 0, 8, 0, 0, 0, 3, 0, 1, b'a', 0, 1, b'b', 0, 1, b'c']
    );
}

#[test]
fn to_writer_appends() {
    let mut sink = vec![0xAA, 0xBB];
    to_writer(&mut sink, Root::from(("b", &Data::I8(5)))).unwrap();
    assert_eq!(sink, vec![0xAA, 0xBB, 1, 0, 1, b'b', 5]);
}

#[test]
fn serializer_by_hand() {
    let mut ser = Serializer::binary(Vec::new(), "n");
    ser.serialize(&Data::I8(1)).unwrap();
    ser.serialize_key(&text("m")).unwrap();
    ser.serialize(&Data::I8(2)).unwrap();
    assert_eq!(ser.into_inner(), vec![1, 0, 1, b'n', 1, 1, 0, 1, b'm', 2]);
}

#[test]
fn unsupported_kinds() {
    for value in [
        Data::I128(1),
        Data::U8(1),
        Data::U16(1),
        Data::U32(1),
        Data::U64(1),
        Data::U128(1),
        Data::Unit,
        Data::Bytes(vec![1, 2]),
        Data::UnitVariant("V".to_string()),
        Data::NewtypeVariant,
        Data::TupleStruct,
        Data::TupleVariant,
        Data::StructVariant,
    ] {
        assert_eq!(failure(&value), ErrorCode::UnsupportedType);
    }
}

#[test]
fn sequence_of_unknown_size() {
    let value = Data::Sequence { sized: false, items: vec![Data::I8(1)] };
    assert_eq!(failure(&value), ErrorCode::SequenceSizeUnknown);
    assert_eq!(failure(&as_nbt_array::serialize(value)), ErrorCode::SequenceSizeUnknown);
}

#[test]
fn list_failures() {
    assert_eq!(
        failure(&list(vec![Data::I8(1), Data::I16(2)])),
        ErrorCode::ListDifferentType
    );
    assert_eq!(
        failure(&list(vec![text("a"), Data::I8(2)])),
        ErrorCode::ListDifferentType
    );
    assert_eq!(failure(&list(vec![Data::U8(1)])), ErrorCode::UnsupportedListInnerType);
    assert_eq!(failure(&list(vec![Data::Nothing])), ErrorCode::UnsupportedListInnerType);
    assert_eq!(
        failure(&list(vec![Data::I8(1), Data::Nothing])),
        ErrorCode::UnsupportedListInnerType
    );
    assert_eq!(
        failure(&list(vec![list(vec![Data::I8(1)])])),
        ErrorCode::UnsupportedListInnerType
    );
}

#[test]
fn array_failures() {
    assert_eq!(
        failure(&as_nbt_array::serialize(Data::I8(1))),
        ErrorCode::UnsupportedArrayType
    );
    assert_eq!(
        failure(&as_nbt_array::serialize(Data::Tuple(vec![Data::I8(1)]))),
        ErrorCode::UnsupportedArrayType
    );
    assert_eq!(
        failure(&as_nbt_array::serialize(list(vec![Data::I16(1)]))),
        ErrorCode::UnsupportedArrayInnerType
    );
    assert_eq!(
        failure(&as_nbt_array::serialize(list(vec![Data::I8(1), text("x")]))),
        ErrorCode::UnsupportedArrayInnerType
    );
    assert_eq!(
        failure(&as_nbt_array::serialize(list(vec![Data::I8(1), Data::I32(2)]))),
        ErrorCode::ArrayDifferentType
    );
}

#[test]
fn key_must_be_a_string() {
    let value = Data::Table(vec![(Data::I8(1), Data::I8(2))]);
    assert_eq!(failure(&value), ErrorCode::KeyMustBeAString);
}

#[test]
fn string_length_limit() {
    let longest = "x".repeat(32767);
    let bytes = to_vec(Root::from(("s", &text(&longest)))).unwrap();
    assert_eq!(bytes.len(), 4 + 2 + 32767);
    assert_eq!(&bytes[4..6], &[0x7F, 0xFF]);
    let too_long = "x".repeat(32768);
    assert_eq!(failure(&text(&too_long)), ErrorCode::InvalidStringLength);
    assert_eq!(failure(&list(vec![text(&too_long)])), ErrorCode::InvalidStringLength);
    let e = to_vec(Root::from((too_long.as_str(), &Data::I8(1)))).unwrap_err();
    assert_eq!(e.code, ErrorCode::InvalidStringLength);
    let value = record("R", vec![field(&too_long, Data::I8(1))]);
    assert_eq!(failure(&value), ErrorCode::InvalidStringLength);
}

#[test]
fn list_element_by_element() {
    let mut ser = Serializer::binary(Vec::new(), "xs");
    let mut list = SerializeList { type_id: None, len: 2 };
    list.serialize_element(&mut ser, &Data::I16(1)).unwrap();
    assert_eq!(list.type_id, Some(2));
    list.serialize_element(&mut ser, &Data::I16(2)).unwrap();
    let e = list.serialize_element(&mut ser, &Data::I8(3)).unwrap_err();
    assert_eq!(e.code, ErrorCode::ListDifferentType);
    list.end(&mut ser).unwrap();
    assert_eq!(ser.into_inner(), vec![9, 0, 2, b'x', b's', 2, 0, 0, 0, 2, 0, 1, 0, 2]);

    let mut ser = Serializer::binary(Vec::new(), "e");
    let list = SerializeList { type_id: None, len: 0 };
    list.end(&mut ser).unwrap();
    assert_eq!(ser.into_inner(), vec![9, 0, 1, b'e', 0, 0, 0, 0, 0]);
}

#[test]
fn compound_entry_by_entry() {
    let mut ser = Serializer::with_formatter(Vec::new(), BinaryFormatter, "c");
    ser.formatter.write_compound_tag(&mut ser.writer, 1, b"c");
    let mut compound = SerializeCompound;
    compound.serialize_field(&mut ser, "a", &Data::I8(1)).unwrap();
    compound.serialize_key(&mut ser, &text("b")).unwrap();
    compound.serialize_value(&mut ser, &Data::I8(2)).unwrap();
    let e = compound.serialize_key(&mut ser, &Data::Bool(true)).unwrap_err();
    assert_eq!(e.code, ErrorCode::KeyMustBeAString);
    compound.end(&mut ser);
    assert_eq!(
        ser.into_inner(),
        vec![10, 0, 1, b'c', 1, 0, 1, b'a', 1, 1, 0, 1, b'b', 2, 0]
    );
}

#[test]
fn refused_at_once_leaves_the_sink() {
    let too_long = "x".repeat(32768);
    for value in [
        text(&too_long),
        Data::Sequence { sized: false, items: vec![Data::I8(1)] },
        Data::Unit,
        as_nbt_array::serialize(list(vec![Data::I16(1)])),
        as_nbt_array::serialize(Data::I8(1)),
        list(vec![Data::U8(1)]),
        Data::Tuple(vec![Data::Nothing]),
    ] {
        let mut sink = vec![7, 7];
        assert!(to_writer(&mut sink, Root::from(("n", &value))).is_err());
        assert_eq!(sink, vec![7, 7]);
    }
}

#[test]
fn refused_later_leaves_what_was_written_before() {
    // the header and the first element stand, the refused element left no byte
    let value = list(vec![Data::I32(1), Data::I64(2)]);
    let mut sink = vec![7];
    let e = to_writer(&mut sink, Root::from(("n", &value))).unwrap_err();
    assert_eq!(e.code, ErrorCode::ListDifferentType);
    assert_eq!(sink, vec![7, 9, 0, 1, b'n', 3, 0, 0, 0, 2, 0, 0, 0, 1]);

    let value = as_nbt_array::serialize(list(vec![Data::I8(1), Data::I32(2)]));
    let mut sink = Vec::new();
    let e = to_writer(&mut sink, Root::from(("n", &value))).unwrap_err();
    assert_eq!(e.code, ErrorCode::ArrayDifferentType);
    assert_eq!(sink, vec![7, 0, 1, b'n', 0, 0, 0, 2, 1]);

    let value = Data::Table(vec![(text("a"), Data::I8(1)), (Data::I8(2), Data::I8(3))]);
    let mut sink = Vec::new();
    let e = to_writer(&mut sink, Root::from(("n", &value))).unwrap_err();
    assert_eq!(e.code, ErrorCode::KeyMustBeAString);
    assert_eq!(sink, vec![10, 0, 1, b'n', 1, 0, 1, b'a', 1]);

    let value = record("R", vec![field("a", Data::I8(1)), field("b", Data::Unit)]);
    let mut sink = Vec::new();
    let e = to_writer(&mut sink, Root::from(("n", &value))).unwrap_err();
    assert_eq!(e.code, ErrorCode::UnsupportedType);
    assert_eq!(sink, vec![10, 0, 1, b'n', 1, 0, 1, b'a', 1]);
}

#[test]
fn refused_key_keeps_the_pending_name() {
    let mut ser = Serializer::binary(vec![1], "p");
    let e = ser.serialize_key(&Data::I32(1)).unwrap_err();
    assert_eq!(e.code, ErrorCode::KeyMustBeAString);
    assert_eq!(ser.next_name, "p");
    assert_eq!(ser.writer, vec![1]);
    ser.serialize_key(&text("k")).unwrap();
    assert_eq!(ser.next_name, "k");
    assert_eq!(ser.writer, vec![1]);
}

#[test]
fn array_element_by_element() {
    let mut ser = Serializer::binary(Vec::new(), "a");
    let mut array = SerializeArray { type_id: None, len: 2 };
    let e = array.serialize_element(&mut ser, &Data::I16(1)).unwrap_err();
    assert_eq!(e.code, ErrorCode::UnsupportedArrayInnerType);
    assert!(ser.writer.is_empty());
    array.serialize_element(&mut ser, &Data::I32(1)).unwrap();
    assert_eq!(array.type_id, Some(11));
    assert_eq!(ser.writer, vec![11, 0, 1, b'a', 0, 0, 0, 2, 0, 0, 0, 1]);
    let e = array.serialize_element(&mut ser, &Data::I8(2)).unwrap_err();
    assert_eq!(e.code, ErrorCode::ArrayDifferentType);
    assert_eq!(ser.writer.len(), 12);
    array.serialize_element(&mut ser, &Data::I32(-1)).unwrap();
    array.end(&mut ser);
    assert_eq!(
        ser.into_inner(),
        vec![11, 0, 1, b'a', 0, 0, 0, 2, 0, 0, 0, 1, 0xFF, 0xFF, 0xFF, 0xFF]
    );

    for (value, id, width) in [(Data::I8(1), 7u8, 1usize), (Data::I64(1), 12, 8)] {
        let mut ser = Serializer::binary(Vec::new(), "");
        let mut array = SerializeArray { type_id: None, len: 1 };
        array.serialize_element(&mut ser, &value).unwrap();
        assert_eq!(ser.writer[0], id);
        assert_eq!(ser.writer.len(), 3 + 4 + width);
    }

    let mut ser = Serializer::binary(vec![5], "e");
    SerializeArray { type_id: None, len: 0 }.end(&mut ser);
    assert_eq!(ser.into_inner(), vec![5]);
}
