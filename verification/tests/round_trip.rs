use coruscant_nbt::as_nbt_array;
use coruscant_nbt::data::Data;
use coruscant_nbt::de::{from_gzip_reader, from_reader, from_slice, from_zlib_reader};
use coruscant_nbt::error::{ErrorCode, IoErrorKind};
use coruscant_nbt::flate::Compression;
use coruscant_nbt::map::TagMap;
use coruscant_nbt::root::Root;
use coruscant_nbt::ser::{deliver, to_gzip_writer, to_vec, to_zlib_writer};
use coruscant_nbt::value::Value;

fn field(name: &str, value: Data) -> (String, Data) {
    (name.to_string(), value)
}

fn record(name: &str, fields: Vec<(String, Data)>) -> Data {
    Data::Struct(name.to_string(), fields)
}

fn list(items: Vec<Data>) -> Data {
    Data::Sequence { sized: true, items }
}

fn text(s: &str) -> Data {
    Data::Str(s.to_string())
}

fn float(v: f32) -> Data {
    Data::F32 { bits: v.to_bits(), text: format!("{}", v) }
}

fn double(v: f64) -> Data {
    Data::F64 { bits: v.to_bits(), text: format!("{}", v) }
}

fn compound(entries: Vec<(&str, Value)>) -> Value {
    let mut map = TagMap::new();
    for (k, v) in entries {
        map.insert(k.to_string(), v);
    }
    Value::Compound(map)
}

fn computed_bytes() -> Vec<i8> {
    let mut out = Vec::new();
    for n in 0i32..1000 {
        out.push(((n * n * 255 + n * 7) % 100) as i8);
    }
    out
}

const BYTE_ARRAY_NAME: &str = "byteArrayTest (the first 1000 values of \
    (n*n*255+n*7)%100, starting with n=0 (0, 62, 34, 16, 8, ...))";

fn big_test() -> Data {
    let bytes = computed_bytes().into_iter().map(Data::I8).collect();
    record(
        "TestStruct",
        vec![
            field("byteTest", Data::I8(127)),
            field("shortTest", Data::I16(32767)),
            field("intTest", Data::I32(2147483647)),
            field("longTest", Data::I64(9223372036854775807)),
            field("floatTest", float(0.49823147058486938)),
            field("doubleTest", double(0.49312871321823148)),
            field("stringTest", text("HELLO WORLD THIS IS A TEST STRING!")),
            field(
                "listTest (long)",
                list(vec![
                    Data::I64(11),
                    Data::I64(12),
                    Data::I64(13),
                    Data::I64(14),
                    Data::I64(15),
                ]),
            ),
            field(
                "listTest (compound)",
                list(vec![
                    record(
                        "NestedCompound",
                        vec![
                            field("created-on", Data::I64(1264099775885)),
                            field("name", text("Compound tag #0")),
                        ],
                    ),
                    record(
                        "NestedCompound",
                        vec![
                            field("created-on", Data::I64(1264099775885)),
                            field("name", text("Compound tag #1")),
                        ],
                    ),
                ]),
            ),
            field(BYTE_ARRAY_NAME, as_nbt_array::serialize(list(bytes))),
            field(
                "nested compound test",
                record(
                    "Nested",
                    vec![
                        field(
                            "egg",
                            record(
                                "Food",
                                vec![field("name", text("Eggbert")), field("value", float(0.5))],
                            ),
                        ),
                        field(
                            "ham",
                            record(
                                "Food",
                                vec![field("name", text("Hampus")), field("value", float(0.75))],
                            ),
                        ),
                    ],
                ),
            ),
        ],
    )
}

fn big_test_value() -> Value {
    compound(vec![
        ("byteTest", Value::Byte(127)),
        ("shortTest", Value::Short(32767)),
        ("intTest", Value::Int(2147483647)),
        ("longTest", Value::Long(9223372036854775807)),
        ("floatTest", Value::Float(0.49823147058486938f32.to_bits())),
        ("doubleTest", Value::Double(0.49312871321823148f64.to_bits())),
        ("stringTest", Value::String("HELLO WORLD THIS IS A TEST STRING!".to_string())),
        (
            "listTest (long)",
            Value::List(vec![
                Value::Long(11),
                Value::Long(12),
                Value::Long(13),
                Value::Long(14),
                Value::Long(15),
            ]),
        ),
        (
            "listTest (compound)",
            Value::List(vec![
                compound(vec![
                    ("created-on", Value::Long(1264099775885)),
                    ("name", Value::String("Compound tag #0".to_string())),
                ]),
                compound(vec![
                    ("created-on", Value::Long(1264099775885)),
                    ("name", Value::String("Compound tag #1".to_string())),
                ]),
            ]),
        ),
        (BYTE_ARRAY_NAME, Value::ByteArray(computed_bytes())),
        (
            "nested compound test",
            compound(vec![
                (
                    "egg",
                    compound(vec![
                        ("name", Value::String("Eggbert".to_string())),
                        ("value", Value::Float(0.5f32.to_bits())),
                    ]),
                ),
                (
                    "ham",
                    compound(vec![
                        ("name", Value::String("Hampus".to_string())),
                        ("value", Value::Float(0.75f32.to_bits())),
                    ]),
                ),
            ]),
        ),
    ])
}

#[test]
fn big_test_round_trip() {
    let bytes = to_vec(Root::from(("Level", &big_test()))).unwrap();
    assert_eq!(bytes.len(), 1537);
    assert_eq!(computed_bytes()[..5], [0, 62, 34, 16, 8]);
    let value = from_slice(&bytes).unwrap();
    assert_eq!(value, big_test_value());
    let value = from_reader(bytes).unwrap();
    assert_eq!(value, big_test_value());
}

#[test]
fn primitives_round_trip() {
    let cases = vec![
        (Data::I8(i8::MIN), Value::Byte(i8::MIN)),
        (Data::I8(i8::MAX), Value::Byte(i8::MAX)),
        (Data::I16(i16::MIN), Value::Short(i16::MIN)),
        (Data::I16(258), Value::Short(258)),
        (Data::I32(i32::MIN), Value::Int(i32::MIN)),
        (Data::I32(-1), Value::Int(-1)),
        (Data::I64(i64::MIN), Value::Long(i64::MIN)),
        (Data::I64(i64::MAX), Value::Long(i64::MAX)),
        (float(f32::NAN), Value::Float(f32::NAN.to_bits())),
        (float(-0.0), Value::Float((-0.0f32).to_bits())),
        (double(f64::INFINITY), Value::Double(f64::INFINITY.to_bits())),
        (double(1.0e-300), Value::Double(1.0e-300f64.to_bits())),
    ];
    for (data, value) in cases {
        let bytes = to_vec(Root::from(("name", &data))).unwrap();
        assert_eq!(from_slice(&bytes).unwrap(), value);
        assert_eq!(from_reader(bytes).unwrap(), value);
    }
}

#[test]
fn strings_round_trip() {
    for s in ["", "a", "h\u{e9}llo \u{4e16}\u{754c} \u{1F600}", &"x".repeat(32767)] {
        let bytes = to_vec(Root::from((s, &text(s)))).unwrap();
        assert_eq!(from_slice(&bytes).unwrap(), Value::String(s.to_string()));
    }
}

#[test]
fn struct_round_trips_when_its_fields_do() {
    let value = record(
        "S",
        vec![
            field("a", Data::I8(1)),
            field("gone", Data::Nothing),
            field("b", text("two")),
            field("c", record("T", vec![field("d", Data::I64(4))])),
        ],
    );
    let bytes = to_vec(Root::from(("s", &value))).unwrap();
    assert_eq!(*bytes.last().unwrap(), 0);
    let expected = compound(vec![
        ("a", Value::Byte(1)),
        ("b", Value::String("two".to_string())),
        ("c", compound(vec![("d", Value::Long(4))])),
    ]);
    assert_eq!(from_slice(&bytes).unwrap(), expected);
}

#[test]
fn list_length_is_what_the_header_says() {
    let items: Vec<Data> = (0..300).map(Data::I16).collect();
    let bytes = to_vec(Root::from(("xs", &list(items)))).unwrap();
    assert_eq!(&bytes[..10], &[9, 0, 2, b'x', b's', 2, 0, 0, 1, 0x2C]);
    match from_slice(&bytes).unwrap() {
        Value::List(items) => assert_eq!(items.len(), 300),
        other => panic!("{:?}", other),
    }
}

#[test]
fn gzip_round_trip() {
    let data = big_test();
    for level in [Compression::none(), Compression::fast(), Compression::best()] {
        let mut sink = vec![0xEE];
        to_gzip_writer(&mut sink, Root::from(("Level", &data)), level).unwrap();
        assert_eq!(&sink[..3], &[0xEE, 0x1F, 0x8B]);
        let value = from_gzip_reader(sink[1..].to_vec()).unwrap();
        assert_eq!(value, big_test_value());
    }
    let mut small = Vec::new();
    to_gzip_writer(&mut small, Root::from(("Level", &data)), Compression::best()).unwrap();
    assert!(small.len() < 1537);
    let mut again = Vec::new();
    to_gzip_writer(&mut again, Root::from(("Level", &data)), Compression::new(9)).unwrap();
    assert_eq!(small, again);
}

#[test]
fn zlib_round_trip() {
    let data = big_test();
    for level in [Compression::none(), Compression::default(), Compression::new(100)] {
        let mut sink = Vec::new();
        to_zlib_writer(&mut sink, Root::from(("Level", &data)), level).unwrap();
        assert_eq!(sink[0], 0x78);
        let value = from_zlib_reader(sink).unwrap();
        assert_eq!(value, big_test_value());
    }
}

#[test]
fn compression_levels() {
    assert_eq!(Compression::none().level(), 0);
    assert_eq!(Compression::fast().level(), 1);
    assert_eq!(Compression::best().level(), 9);
    assert_eq!(Compression::default().level(), 6);
    assert_eq!(Compression::new(4).level(), 4);
    assert_eq!(Compression::new(4).clamped(), 4);
    assert_eq!(Compression::new(11).clamped(), 10);
}

#[test]
fn what_is_no_stream_does_not_unpack() {
    let e = from_gzip_reader(vec![1, 2, 3, 4]).unwrap_err();
    assert_eq!(e.code, ErrorCode::Io(IoErrorKind::Other));
    let e = from_zlib_reader(vec![1, 2, 3, 4]).unwrap_err();
    assert_eq!(e.code, ErrorCode::Io(IoErrorKind::Other));
}

#[test]
fn encoding_failure_leaves_the_sink_alone() {
    let mut sink = vec![1, 2];
    let e = to_gzip_writer(&mut sink, Root::from(&Data::Unit), Compression::fast()).unwrap_err();
    assert_eq!(e.code, ErrorCode::UnsupportedType);
    assert_eq!(sink, vec![1, 2]);
    let e = to_zlib_writer(&mut sink, Root::from(&Data::Unit), Compression::fast()).unwrap_err();
    assert_eq!(e.code, ErrorCode::UnsupportedType);
    assert_eq!(sink, vec![1, 2]);
}

#[test]
fn compression_succeeds_at_every_level() {
    let data = big_test();
    for level in 0..=12 {
        let mut sink = Vec::new();
        assert!(to_gzip_writer(&mut sink, Root::from(("Level", &data)), Compression::new(level))
            .is_ok());
        assert!(!sink.is_empty());
        let mut sink = Vec::new();
        assert!(to_zlib_writer(&mut sink, Root::from(("Level", &data)), Compression::new(level))
            .is_ok());
        assert!(!sink.is_empty());
    }
}

#[test]
fn deliver_reports_the_compressor() {
    let mut sink = vec![1];
    deliver(&mut sink, Some(vec![2, 3])).unwrap();
    assert_eq!(sink, vec![1, 2, 3]);
    let e = deliver(&mut sink, None).unwrap_err();
    assert_eq!(e.code, ErrorCode::Io(IoErrorKind::Other));
    assert_eq!(sink, vec![1, 2, 3]);
}

#[test]
fn header_comes_before_the_elements() {
    let xs = list(vec![Data::I64(-1), Data::I64(-2)]);
    let bytes = to_vec(Root::from(("xs", &xs))).unwrap();
    // head, then the kind of the elements and their number, then the elements
    assert_eq!(&bytes[..5], &[9, 0, 2, b'x', b's']);
    assert_eq!(&bytes[5..10], &[4, 0, 0, 0, 2]);
    assert_eq!(bytes.len(), 10 + 16);
    assert!(bytes[10..].iter().all(|b| *b == 0xFF || *b == 0xFE));
    let ia = as_nbt_array::serialize(list(vec![Data::I32(-1)]));
    let bytes = to_vec(Root::from(("ia", &ia))).unwrap();
    assert_eq!(&bytes[..9], &[11, 0, 2, b'i', b'a', 0, 0, 0, 1]);
    assert_eq!(&bytes[9..], &[0xFF, 0xFF, 0xFF, 0xFF]);
}

#[test]
fn names_at_the_crate_root() {
    let data = coruscant_nbt::Data::I8(1);
    let bytes = coruscant_nbt::to_vec(coruscant_nbt::Root::from(("a", &data))).unwrap();
    assert_eq!(coruscant_nbt::from_slice(&bytes).unwrap(), coruscant_nbt::Value::Byte(1));
    let marked = coruscant_nbt::to_array(list(vec![Data::I8(1)]));
    let bytes = coruscant_nbt::to_vec(coruscant_nbt::Root::from(("a", &marked))).unwrap();
    assert_eq!(
        coruscant_nbt::from_slice(&bytes).unwrap(),
        coruscant_nbt::Value::ByteArray(vec![1])
    );
}
