use coruscant_nbt::de::{
    from_reader, from_slice, proc_deserialize_value, CompoundAccess, Deserializer,
    InnerDeserializer, ListOrArrayAccess, Payload,
};
use coruscant_nbt::error::{Error, ErrorCode, IoErrorKind};
use coruscant_nbt::map::TagMap;
use coruscant_nbt::read::{IoRead, Read, SliceRead};
use coruscant_nbt::value::Value;
use std::borrow::Cow;

fn compound(entries: Vec<(&str, Value)>) -> Value {
    let mut map = TagMap::new();
    for (k, v) in entries {
        map.insert(k.to_string(), v);
    }
    Value::Compound(map)
}

#[test]
fn decode_scalars() {
    assert_eq!(from_slice(&[1, 0, 1, b'b', 0xF1]).unwrap(), Value::Byte(-15));
    assert_eq!(from_slice(&[2, 0, 0, 0xFF, 0xFE]).unwrap(), Value::Short(-2));
    assert_eq!(from_slice(&[3, 0, 0, 1, 2, 3, 4]).unwrap(), Value::Int(0x01020304));
    assert_eq!(
        from_slice(&[4, 0, 0, 1, 2, 3, 4, 5, 6, 7, 8]).unwrap(),
        Value::Long(0x0102030405060708)
    );
    assert_eq!(
        from_slice(&[5, 0, 0, 0x3F, 0, 0, 0]).unwrap(),
        Value::Float(0.5f32.to_bits())
    );
    assert_eq!(
        from_slice(&[6, 0, 0, 0x3F, 0xE0, 0, 0, 0, 0, 0, 0]).unwrap(),
        Value::Double(0.5f64.to_bits())
    );
    assert_eq!(
        from_slice(&[8, 0, 0, 0, 2, 0xC3, 0xA9]).unwrap(),
        Value::String("\u{e9}".to_string())
    );
}

#[test]
fn decode_containers() {
    let bytes = [
        0x0A, 0x00, 0x01, 0x72, 0x09, 0x00, 0x02, 0x78, 0x73, 0x03, 0x00, 0x00, 0x00, 0x03, 0x00,
        0x00, 0x00, 0x01, 0x00, 0x00, 0x00, 0x02, 0x00, 0x00, 0x00, 0x03, 0x07, 0x00, 0x02, 0x62,
        0x61, 0x00, 0x00, 0x00, 0x03, 0x01, 0x02, 0xFF, 0x0B, 0x00, 0x01, b'i', 0, 0, 0, 1, 0, 0,
        0, 9, 0x0C, 0x00, 0x01, b'l', 0, 0, 0, 1, 0, 0, 0, 0, 0, 0, 0, 7, 0x00,
    ];
    let expected = compound(vec![
        ("xs", Value::List(vec![Value::Int(1), Value::Int(2), Value::Int(3)])),
        ("ba", Value::ByteArray(vec![1, 2, -1])),
        ("i", Value::IntArray(vec![9])),
        ("l", Value::LongArray(vec![7])),
    ]);
    assert_eq!(from_slice(&bytes).unwrap(), expected);
    assert_eq!(from_reader(bytes.to_vec()).unwrap(), expected);
}

#[test]
fn decode_empty_list_of_kind_end() {
    let bytes = [0x09, 0x00, 0x02, 0x78, 0x73, 0x00, 0x00, 0x00, 0x00, 0x00];
    assert_eq!(from_slice(&bytes).unwrap(), Value::List(vec![]));
}

#[test]
fn later_entry_of_a_name_replaces_the_earlier() {
    let bytes = [10, 0, 0, 1, 0, 1, b'a', 1, 1, 0, 1, b'b', 2, 1, 0, 1, b'a', 3, 0];
    let value = from_slice(&bytes).unwrap();
    assert_eq!(value, compound(vec![("a", Value::Byte(3)), ("b", Value::Byte(2))]));
}

#[test]
fn root_name_is_read() {
    let mut de = Deserializer::slice(&[1, 0, 2, b'o', b'k', 5, 9]);
    let (name, value) = de.deserialize_root().unwrap();
    assert_eq!(name, "ok");
    assert_eq!(value, Value::Byte(5));
    assert_eq!(de.read.index(), 6);
    assert_eq!(de.into_inner(), &[1, 0, 2, b'o', b'k', 5, 9]);
    let de = Deserializer::io(vec![1, 2, 3]);
    assert_eq!(de.into_inner(), vec![1, 2, 3]);
}

#[test]
fn invalid_type_id() {
    let e = from_slice(&[13, 0, 1, b'x', 0]).unwrap_err();
    assert_eq!(e, Error { code: ErrorCode::TypeIdInvalid(13), index: 4 });
    let e = from_slice(&[0, 0, 0]).unwrap_err();
    assert_eq!(e, Error { code: ErrorCode::TypeIdInvalid(0), index: 3 });
    // a list whose header announces the kind End cannot have elements
    let e = from_slice(&[9, 0, 0, 0, 0, 0, 0, 1, 0]).unwrap_err();
    assert_eq!(e, Error { code: ErrorCode::TypeIdInvalid(0), index: 8 });
}

#[test]
fn negative_lengths() {
    let e = from_slice(&[8, 0xFF, 0xFF]).unwrap_err();
    assert_eq!(e, Error { code: ErrorCode::InvalidLength(-1), index: 3 });
    let e = from_slice(&[9, 0, 0, 1, 0xFF, 0xFF, 0xFF, 0xFE]).unwrap_err();
    assert_eq!(e, Error { code: ErrorCode::InvalidLength(-2), index: 8 });
    let e = from_slice(&[7, 0, 0, 0x80, 0, 0, 0]).unwrap_err();
    assert_eq!(e, Error { code: ErrorCode::InvalidLength(i32::MIN), index: 7 });
}

#[test]
fn invalid_utf8() {
    let e = from_slice(&[8, 0, 0, 0, 1, 0xFF]).unwrap_err();
    assert_eq!(e, Error { code: ErrorCode::InvalidUtf8String, index: 5 });
    let e = from_reader(vec![8, 0, 1, 0xC3]).unwrap_err();
    assert_eq!(e, Error { code: ErrorCode::InvalidUtf8String, index: 3 });
}

#[test]
fn truncated_input() {
    let e = from_slice(&[3, 0, 0, 1, 2]).unwrap_err();
    assert_eq!(e, Error { code: ErrorCode::SliceUnexpectedEof, index: 0 });
    let e = from_reader(vec![3, 0, 0, 1, 2]).unwrap_err();
    assert_eq!(e, Error { code: ErrorCode::Io(IoErrorKind::UnexpectedEof), index: 3 });
    let e = from_slice(&[]).unwrap_err();
    assert_eq!(e, Error { code: ErrorCode::SliceUnexpectedEof, index: 0 });
    let e = from_reader(vec![10, 0, 0, 1, 0, 1, b'a', 1]).unwrap_err();
    assert_eq!(e, Error { code: ErrorCode::Io(IoErrorKind::UnexpectedEof), index: 8 });
    let e = from_reader(vec![8, 0, 0, 0, 5, b'a']).unwrap_err();
    assert_eq!(e, Error { code: ErrorCode::Io(IoErrorKind::UnexpectedEof), index: 5 });
    let e = from_reader(vec![11, 0, 0, 0, 0, 0, 2, 0, 0, 0, 1, 0, 0]).unwrap_err();
    assert_eq!(e, Error { code: ErrorCode::Io(IoErrorKind::UnexpectedEof), index: 11 });
    let e = from_reader(vec![12, 0, 0, 0, 0, 0, 1, 0, 0, 0, 1]).unwrap_err();
    assert_eq!(e, Error { code: ErrorCode::Io(IoErrorKind::UnexpectedEof), index: 7 });
    let e = from_reader(vec![7, 0, 0, 0, 0, 0, 3, 1, 2]).unwrap_err();
    assert_eq!(e, Error { code: ErrorCode::Io(IoErrorKind::UnexpectedEof), index: 9 });
}

#[test]
fn typed_bool() {
    let mut de = Deserializer::slice(&[1, 0, 2]);
    let t = InnerDeserializer { type_id: 1 };
    assert_eq!(t.deserialize_bool(&mut de).unwrap(), true);
    let t = InnerDeserializer { type_id: 1 };
    assert_eq!(t.deserialize_bool(&mut de).unwrap(), false);
    let t = InnerDeserializer { type_id: 1 };
    assert_eq!(
        t.deserialize_bool(&mut de).unwrap_err(),
        Error { code: ErrorCode::InvalidBoolByte(2), index: 3 }
    );
    let t = InnerDeserializer { type_id: 3 };
    assert_eq!(
        t.deserialize_bool(&mut de).unwrap_err(),
        Error { code: ErrorCode::TypeIdMismatch(3, 1), index: 3 }
    );
}

#[test]
fn typed_text() {
    let bytes = [0, 2, b'h', b'i', 0, 1, b'x', 0, 0];
    let mut de = Deserializer::slice(&bytes);
    let t = InnerDeserializer { type_id: 8 };
    match t.deserialize_str(&mut de).unwrap() {
        Cow::Borrowed(s) => assert_eq!(s, "hi"),
        Cow::Owned(_) => panic!("text of a slice is borrowed"),
    }
    let t = InnerDeserializer { type_id: 8 };
    assert_eq!(t.deserialize_string(&mut de).unwrap(), "x");
    let t = InnerDeserializer { type_id: 1 };
    assert_eq!(
        t.deserialize_str(&mut de).unwrap_err(),
        Error { code: ErrorCode::TypeIdMismatch(1, 8), index: 7 }
    );
    let t = InnerDeserializer { type_id: 2 };
    assert_eq!(
        t.deserialize_string(&mut de).unwrap_err(),
        Error { code: ErrorCode::TypeIdMismatch(2, 8), index: 7 }
    );
    let t = InnerDeserializer { type_id: 8 };
    assert_eq!(t.deserialize_any(&mut de).unwrap(), Value::String(String::new()));

    let mut de = Deserializer::io(vec![0, 2, b'h', b'i']);
    let t = InnerDeserializer { type_id: 8 };
    match t.deserialize_str(&mut de).unwrap() {
        Cow::Owned(s) => assert_eq!(s, "hi"),
        Cow::Borrowed(_) => panic!("text of a stream is owned"),
    }
}

#[test]
fn walk_through_a_compound() {
    let bytes = [1, 0, 1, b'a', 7, 3, 0, 1, b'b', 0, 0, 0, 9, 0];
    let mut de = Deserializer::slice(&bytes);
    let mut access = CompoundAccess::new();
    assert_eq!(access.next_key(&mut de).unwrap().unwrap(), "a");
    assert_eq!(access.type_id, Some(1));
    assert_eq!(access.next_value(&mut de).unwrap(), Value::Byte(7));
    assert_eq!(access.next_key(&mut de).unwrap().unwrap(), "b");
    assert_eq!(access.next_value(&mut de).unwrap(), Value::Int(9));
    assert!(access.next_key(&mut de).unwrap().is_none());
    assert_eq!(de.read.index(), 14);
}

#[test]
fn walk_through_a_list() {
    let bytes = [2, 0, 0, 0, 2, 0, 1, 0, 2, 0xAA];
    let mut de = Deserializer::slice(&bytes);
    let mut access = ListOrArrayAccess::list(&mut de).unwrap();
    assert_eq!((access.type_id, access.cur_len, access.total_len), (2, 0, 2));
    assert_eq!(access.next_element(&mut de).unwrap(), Some(Value::Short(1)));
    assert_eq!(access.next_element(&mut de).unwrap(), Some(Value::Short(2)));
    assert_eq!(access.next_element(&mut de).unwrap(), None);
    assert_eq!(access.next_element(&mut de).unwrap(), None);
    assert_eq!(de.read.index(), 9);
}

#[test]
fn array_headers() {
    let mut de = Deserializer::slice(&[0, 0, 0, 3]);
    let access = ListOrArrayAccess::byte_array(&mut de).unwrap();
    assert_eq!((access.type_id, access.cur_len, access.total_len), (1, 0, 3));
    let mut de = Deserializer::slice(&[0, 0, 1, 0]);
    let access = ListOrArrayAccess::int_array(&mut de).unwrap();
    assert_eq!((access.type_id, access.cur_len, access.total_len), (3, 0, 256));
    let mut de = Deserializer::slice(&[0, 0, 0, 0]);
    let access = ListOrArrayAccess::long_array(&mut de).unwrap();
    assert_eq!((access.type_id, access.cur_len, access.total_len), (4, 0, 0));
}

#[test]
fn readers_count_bytes() {
    let bytes = [9, 0xFF, 0x80, 0x00, 0, 0, 0, 5, 0, 0, 0, 0, 0, 0, 0, 6, 0, 1, b'z'];
    let mut r = SliceRead::new(&bytes);
    assert_eq!(r.index(), 0);
    assert_eq!(r.read_type_id().unwrap(), 9);
    assert_eq!(r.read_byte_inner().unwrap(), -1);
    assert_eq!(r.read_short_inner().unwrap(), -32768);
    assert_eq!(r.read_int_inner().unwrap(), 5);
    assert_eq!(r.read_long_inner().unwrap(), 6);
    assert_eq!(r.index(), 16);
    assert_eq!(r.read_name().unwrap(), "z");
    assert_eq!(r.index(), 19);
    assert_eq!(r.read_type_id().unwrap_err().code, ErrorCode::SliceUnexpectedEof);
    assert_eq!(r.index(), 19);
    assert_eq!(r.into_inner(), &bytes);

    let mut r = IoRead::new(bytes.to_vec());
    assert_eq!(r.read_type_id().unwrap(), 9);
    assert_eq!(r.read_length().unwrap(), -128);
    assert_eq!(r.read_float_inner().unwrap(), 0x0000_0000);
    assert_eq!(r.read_double_inner().unwrap(), 0x0500_0000_0000_0000);
    assert_eq!(r.index(), 15);
    assert_eq!(
        r.read_long_inner().unwrap_err(),
        Error { code: ErrorCode::Io(IoErrorKind::UnexpectedEof), index: 15 }
    );
    assert_eq!(r.index(), 15);
    assert_eq!(r.into_inner(), bytes.to_vec());
}

#[test]
fn payload_by_payload() {
    // a compound with a list of two shorts and a string
    let bytes = [9, 0, 1, b'l', 2, 0, 0, 0, 2, 0, 7, 0, 8, 8, 0, 1, b's', 0, 2, b'o', b'k', 0];
    let mut de = Deserializer::slice(&bytes);
    let mut entries = match (InnerDeserializer { type_id: 10 }).open(&mut de).unwrap() {
        Payload::Entries(entries) => entries,
        _ => panic!("a compound has entries"),
    };
    assert_eq!(entries.next_key(&mut de).unwrap().unwrap(), "l");
    let mut elements = match entries.value().open(&mut de).unwrap() {
        Payload::Elements(elements) => elements,
        _ => panic!("a list has elements"),
    };
    assert_eq!((elements.type_id, elements.total_len), (2, 2));
    let mut shorts = Vec::new();
    while let Some(head) = elements.step() {
        match head.open(&mut de).unwrap() {
            Payload::Short(v) => shorts.push(v),
            _ => panic!("the list holds shorts"),
        }
    }
    assert_eq!(shorts, vec![7, 8]);
    assert_eq!(elements.cur_len, 2);
    assert_eq!(entries.next_key(&mut de).unwrap().unwrap(), "s");
    match entries.value().open(&mut de).unwrap() {
        Payload::Text(text) => assert_eq!(text, "ok"),
        _ => panic!("a string is text"),
    }
    assert!(entries.next_key(&mut de).unwrap().is_none());
    assert_eq!(de.read.index(), bytes.len());
}

#[test]
fn heads_of_payloads() {
    let mut de = Deserializer::slice(&[0x80, 0, 1, 0, 0, 0, 2, 0, 0, 0, 0, 0, 0, 0, 3]);
    assert!(matches!((InnerDeserializer { type_id: 1 }).open(&mut de), Ok(Payload::Byte(-128))));
    assert!(matches!((InnerDeserializer { type_id: 2 }).open(&mut de), Ok(Payload::Short(1))));
    assert!(matches!((InnerDeserializer { type_id: 3 }).open(&mut de), Ok(Payload::Int(2))));
    assert!(matches!((InnerDeserializer { type_id: 4 }).open(&mut de), Ok(Payload::Long(3))));
    let mut de = Deserializer::slice(&[0x3F, 0x80, 0, 0, 0x3F, 0xF0, 0, 0, 0, 0, 0, 0]);
    match (InnerDeserializer { type_id: 5 }).open(&mut de).unwrap() {
        Payload::Float(bits) => assert_eq!(f32::from_bits(bits), 1.0),
        _ => panic!("a float"),
    }
    match (InnerDeserializer { type_id: 6 }).open(&mut de).unwrap() {
        Payload::Double(bits) => assert_eq!(f64::from_bits(bits), 1.0),
        _ => panic!("a double"),
    }
    for (array_id, element_id) in [(7u8, 1u8), (11, 3), (12, 4)] {
        let mut de = Deserializer::slice(&[0, 0, 0, 9]);
        match (InnerDeserializer { type_id: array_id }).open(&mut de).unwrap() {
            Payload::Elements(access) => {
                assert_eq!((access.type_id, access.cur_len, access.total_len), (element_id, 0, 9))
            }
            _ => panic!("an array has elements"),
        }
    }
    let mut de = Deserializer::slice(&[]);
    let e = (InnerDeserializer { type_id: 99 }).open(&mut de).unwrap_err();
    assert_eq!(e, Error { code: ErrorCode::TypeIdInvalid(99), index: 0 });
    let e = (InnerDeserializer { type_id: 9 }).open(&mut de).unwrap_err();
    assert_eq!(e, Error { code: ErrorCode::SliceUnexpectedEof, index: 0 });
}

#[test]
fn payload_of_a_given_kind() {
    let mut de = Deserializer::io(vec![0, 0, 0, 2, 0, 0, 0, 5, 0, 0, 0, 6]);
    assert_eq!(proc_deserialize_value(11, &mut de).unwrap(), Value::IntArray(vec![5, 6]));
    assert_eq!(de.read.index(), 12);
}

#[test]
fn reader_after_a_refused_request() {
    let bytes = [2, 1, 0, 1, b'x'];
    let mut de = Deserializer::slice(&bytes);
    // another kind: nothing is read
    assert!((InnerDeserializer { type_id: 3 }).deserialize_bool(&mut de).is_err());
    assert_eq!(de.read.index(), 0);
    assert!((InnerDeserializer { type_id: 3 }).deserialize_str(&mut de).is_err());
    assert_eq!(de.read.index(), 0);
    assert!((InnerDeserializer { type_id: 3 }).deserialize_string(&mut de).is_err());
    assert_eq!(de.read.index(), 0);
    // a byte that is no boolean has been read
    let e = (InnerDeserializer { type_id: 1 }).deserialize_bool(&mut de).unwrap_err();
    assert_eq!(e, Error { code: ErrorCode::InvalidBoolByte(2), index: 1 });
    assert_eq!(de.read.index(), 1);
    assert_eq!((InnerDeserializer { type_id: 1 }).deserialize_bool(&mut de).unwrap(), true);
    assert_eq!(de.read.index(), 2);
    // a kind that the format does not know: nothing is read
    for id in [0u8, 13, 255] {
        let e = proc_deserialize_value(id, &mut de).unwrap_err();
        assert_eq!(e, Error { code: ErrorCode::TypeIdInvalid(id), index: 2 });
        assert_eq!(de.read.index(), 2);
    }
    assert_eq!((InnerDeserializer { type_id: 8 }).deserialize_str(&mut de).unwrap(), "x");
    assert_eq!(de.read.index(), 5);
    // at the end of the input
    assert!((InnerDeserializer { type_id: 1 }).deserialize_bool(&mut de).is_err());
    assert_eq!(de.read.index(), 5);
    // a negative length has been read, a missing one has not
    let mut de = Deserializer::slice(&[0xFF, 0xFF, 0xFF, 0xFF, 0, 0]);
    assert!(proc_deserialize_value(7, &mut de).is_err());
    assert_eq!(de.read.index(), 4);
    assert!(proc_deserialize_value(11, &mut de).is_err());
    assert_eq!(de.read.index(), 4);
}

#[test]
fn reader_after_a_failure_further_in() {
    // a list of two ints of which the second is cut short
    let mut de = Deserializer::slice(&[3, 0, 0, 0, 2, 0, 0, 0, 1, 0, 0]);
    assert!(proc_deserialize_value(9, &mut de).is_err());
    assert_eq!(de.read.index(), 9);
    // a compound whose only tag lacks its payload
    let mut de = Deserializer::slice(&[1, 0, 1, b'a']);
    assert!(proc_deserialize_value(10, &mut de).is_err());
    assert_eq!(de.read.index(), 4);
    // a compound whose second name is cut short behind its length
    let mut de = Deserializer::slice(&[1, 0, 1, b'a', 5, 8, 0, 9, b'x']);
    assert!(proc_deserialize_value(10, &mut de).is_err());
    assert_eq!(de.read.index(), 8);
    // an int array of three of which one is there in full
    let mut de = Deserializer::io(vec![0, 0, 0, 3, 0, 0, 0, 1, 0, 0]);
    assert!(proc_deserialize_value(11, &mut de).is_err());
    assert_eq!(de.read.index(), 8);
    // a root whose name is no text
    let mut de = Deserializer::slice(&[1, 0, 1, 0xFF, 0]);
    assert!(de.deserialize_root().is_err());
    assert_eq!(de.read.index(), 3);
}
