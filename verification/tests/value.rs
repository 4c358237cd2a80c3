use coruscant_nbt::data::Data;
use coruscant_nbt::error::{Error, ErrorCode, IoErrorKind};
use coruscant_nbt::map::{compare_bytes, Order, TagMap};
use coruscant_nbt::value::{to_value, Value};

#[test]
fn map_keeps_each_name_once() {
    let mut map = TagMap::new();
    assert!(map.is_empty());
    assert_eq!(map.len(), 0);
    assert_eq!(map.insert("b".to_string(), Value::Byte(2)), None);
    assert_eq!(map.insert("c".to_string(), Value::Byte(3)), None);
    assert_eq!(map.insert("a".to_string(), Value::Byte(1)), None);
    assert_eq!(map.insert("a".to_string(), Value::Byte(9)), Some(Value::Byte(1)));
    assert_eq!(map.len(), 3);
    assert!(!map.is_empty());
    assert_eq!(map.get("a"), Some(&Value::Byte(9)));
    assert_eq!(map.get("b"), Some(&Value::Byte(2)));
    assert_eq!(map.get("z"), None);
    assert!(map.contains_key("c"));
    assert!(!map.contains_key(""));
    let keys: Vec<String> = map.keys().into_iter().cloned().collect();
    assert_eq!(keys, vec!["a".to_string(), "b".to_string(), "c".to_string()]);
    assert_eq!(map.remove("b"), Some(Value::Byte(2)));
    assert_eq!(map.remove("b"), None);
    let keys: Vec<String> = map.keys().into_iter().cloned().collect();
    assert_eq!(keys, vec!["a".to_string(), "c".to_string()]);
    map.clear();
    assert!(map.is_empty());
    assert_eq!(TagMap::with_capacity(8).len(), 0);
    assert_eq!(TagMap::default().len(), 0);
}

#[test]
fn tree_of_scalars_and_structs() {
    assert_eq!(to_value(&Data::Bool(true)).unwrap(), Value::Byte(1));
    assert_eq!(to_value(&Data::Bool(false)).unwrap(), Value::Byte(0));
    assert_eq!(to_value(&Data::I8(-3)).unwrap(), Value::Byte(-3));
    assert_eq!(to_value(&Data::I16(-3)).unwrap(), Value::Short(-3));
    assert_eq!(to_value(&Data::I32(-3)).unwrap(), Value::Int(-3));
    assert_eq!(to_value(&Data::I64(-3)).unwrap(), Value::Long(-3));
    assert_eq!(
        to_value(&Data::F32 { bits: 7, text: String::new() }).unwrap(),
        Value::Float(7)
    );
    assert_eq!(
        to_value(&Data::F64 { bits: 8, text: String::new() }).unwrap(),
        Value::Double(8)
    );
    assert_eq!(
        to_value(&Data::Str("s".to_string())).unwrap(),
        Value::String("s".to_string())
    );
    let wrapped = Data::NewtypeStruct("W".to_string(), Box::new(Data::I8(1)));
    assert_eq!(to_value(&wrapped).unwrap(), Value::Byte(1));
    let data = Data::Struct(
        "S".to_string(),
        vec![
            ("a".to_string(), Data::I8(1)),
            ("b".to_string(), Data::Struct("T".to_string(), vec![])),
            ("a".to_string(), Data::I8(2)),
        ],
    );
    let mut expected = TagMap::new();
    expected.insert("a".to_string(), Value::Byte(2));
    expected.insert("b".to_string(), Value::Compound(TagMap::new()));
    assert_eq!(to_value(&data).unwrap(), Value::Compound(expected));
}

#[test]
fn no_tree_of_other_kinds() {
    for data in [
        Data::I128(1),
        Data::U8(1),
        Data::Char('c'),
        Data::Nothing,
        Data::Unit,
        Data::Tuple(vec![]),
        Data::Sequence { sized: true, items: vec![] },
        Data::Table(vec![]),
        Data::Struct("S".to_string(), vec![("a".to_string(), Data::Nothing)]),
    ] {
        assert_eq!(
            to_value(&data).unwrap_err(),
            Error { code: ErrorCode::UnsupportedType, index: 0 }
        );
    }
}

#[test]
fn failures_in_words() {
    let cases = vec![
        (ErrorCode::Message("custom".to_string()), "custom"),
        (ErrorCode::Io(IoErrorKind::UnexpectedEof), "failed to fill whole buffer"),
        (ErrorCode::Io(IoErrorKind::Other), "other error"),
        (ErrorCode::UnsupportedType, "unsupported NBT type"),
        (ErrorCode::UnsupportedListInnerType, "unsupported NBT list-wrapped type"),
        (
            ErrorCode::UnsupportedArrayType,
            "unsupported type for NBT arrays; a sequence is required",
        ),
        (ErrorCode::UnsupportedArrayInnerType, "unsupported NBT array inner type"),
        (ErrorCode::InvalidStringLength, "invalid NBT string length"),
        (ErrorCode::KeyMustBeAString, "NBT key must be a string"),
        (ErrorCode::SequenceSizeUnknown, "size of NBT sequence is unknown"),
        (ErrorCode::ListDifferentType, "elements of one NBT list do not have the same type"),
        (ErrorCode::ArrayDifferentType, "elements of one NBT array do not have the same type"),
        (
            ErrorCode::InvalidBoolByte(2),
            "invalid NBT boolean byte 2 (0x02), 0 or 1 expected",
        ),
        (
            ErrorCode::InvalidBoolByte(-1),
            "invalid NBT boolean byte -1 (0xFF), 0 or 1 expected",
        ),
        (ErrorCode::InvalidUtf8String, "invalid utf-8 NBT string"),
        (
            ErrorCode::TypeIdMismatch(3, 1),
            "mismatched NBT type id 3 (0x03), expected 1 (0x01)",
        ),
        (ErrorCode::TypeIdInvalid(255), "invalid type id 255 (0xFF)"),
        (
            ErrorCode::InvalidLength(-1),
            "invalid length -1 (0xFFFFFFFF); length must be positive for NBT",
        ),
        (
            ErrorCode::InvalidLength(10),
            "invalid length 10 (0x000A); length must be positive for NBT",
        ),
        (ErrorCode::SliceUnexpectedEof, "unexpected EOF when reading NBT source slice"),
    ];
    for (code, words) in cases {
        assert_eq!(code.message(), words);
    }
    let e = Error::invalid_id_at(13, 4);
    assert_eq!(e.message(), "(NBT input:4) invalid type id 13 (0x0D)");
    let e = Error::slice_eof();
    assert_eq!(e.message(), "unexpected EOF when reading NBT source slice");
}

#[test]
fn failure_constructors() {
    assert_eq!(
        Error::syntax(ErrorCode::UnsupportedType, 3),
        Error { code: ErrorCode::UnsupportedType, index: 3 }
    );
    assert_eq!(
        Error::io(IoErrorKind::Other),
        Error { code: ErrorCode::Io(IoErrorKind::Other), index: 0 }
    );
    assert_eq!(
        Error::io_at(IoErrorKind::UnexpectedEof, 9),
        Error { code: ErrorCode::Io(IoErrorKind::UnexpectedEof), index: 9 }
    );
    assert_eq!(Error::utf8_at(2), Error { code: ErrorCode::InvalidUtf8String, index: 2 });
    assert_eq!(
        Error::mismatch_at(1, 8, 5),
        Error { code: ErrorCode::TypeIdMismatch(1, 8), index: 5 }
    );
    assert_eq!(Error::bool_at(7, 1), Error { code: ErrorCode::InvalidBoolByte(7), index: 1 });
    assert_eq!(
        Error::invalid_len_at(-5, 6),
        Error { code: ErrorCode::InvalidLength(-5), index: 6 }
    );
    assert_eq!(
        Error::custom("m".to_string()),
        Error { code: ErrorCode::Message("m".to_string()), index: 0 }
    );
    assert_eq!(
        Error::from_inner(ErrorCode::KeyMustBeAString, 0),
        Error { code: ErrorCode::KeyMustBeAString, index: 0 }
    );
}

#[test]
fn maps_with_the_same_entries_are_equal() {
    let mut one = TagMap::new();
    one.insert("x".to_string(), Value::Int(1));
    one.insert("".to_string(), Value::Int(0));
    one.insert("xy".to_string(), Value::Int(2));
    one.insert("X".to_string(), Value::Int(3));
    let mut other = TagMap::new();
    other.insert("X".to_string(), Value::Int(3));
    other.insert("xy".to_string(), Value::Int(2));
    other.insert("x".to_string(), Value::Int(9));
    other.insert("".to_string(), Value::Int(0));
    other.insert("x".to_string(), Value::Int(1));
    assert_eq!(one, other);
    let keys: Vec<String> = one.keys().into_iter().cloned().collect();
    assert_eq!(keys, vec!["".to_string(), "X".to_string(), "x".to_string(), "xy".to_string()]);
}

#[test]
fn byte_strings_in_order() {
    assert_eq!(compare_bytes(b"", b""), Order::Same);
    assert_eq!(compare_bytes(b"", b"a"), Order::Before);
    assert_eq!(compare_bytes(b"a", b""), Order::After);
    assert_eq!(compare_bytes(b"ab", b"ab"), Order::Same);
    assert_eq!(compare_bytes(b"ab", b"abc"), Order::Before);
    assert_eq!(compare_bytes(b"abd", b"abc"), Order::After);
    assert_eq!(compare_bytes(b"Z", b"a"), Order::Before);
    assert_eq!(compare_bytes(&[0xFF], &[0x7F, 0x01]), Order::After);
}

#[test]
fn map_values_in_place() {
    let mut map = TagMap::with_capacity(usize::MAX);
    assert!(map.is_empty());
    map.insert("b".to_string(), Value::Byte(2));
    map.insert("a".to_string(), Value::Byte(1));
    assert!(map.get_mut("z").is_none());
    match map.get_mut("a") {
        Some(v) => *v = Value::Int(10),
        None => panic!("the name is there"),
    }
    assert_eq!(map.get("a"), Some(&Value::Int(10)));
    assert_eq!(map.get("b"), Some(&Value::Byte(2)));
    let pairs = map.iter();
    assert_eq!(pairs[0], (&"a".to_string(), &Value::Int(10)));
    assert_eq!(pairs[1], (&"b".to_string(), &Value::Byte(2)));
    assert_eq!(map.iter().len(), 2);
}
