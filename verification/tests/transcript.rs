use coruscant_nbt::as_nbt_array;
use coruscant_nbt::data::Data;
use coruscant_nbt::formatter::{indent, BinaryFormatter, Formatter, TranscriptFormatter};
use coruscant_nbt::root::Root;
use coruscant_nbt::ser::{to_string_transcript, Serializer};

fn field(name: &str, value: Data) -> (String, Data) {
    (name.to_string(), value)
}

fn record(name: &str, fields: Vec<(String, Data)>) -> Data {
    Data::Struct(name.to_string(), fields)
}

fn list(items: Vec<Data>) -> Data {
    Data::Sequence { sized: true, items }
}

#[test]
fn nested_struct_transcript() {
    let inner = record("Inner", vec![field("a", Data::I8(-15))]);
    let value = record("Wrap", vec![field("inner", inner)]);
    let text = to_string_transcript(Root::from(("Outer", &value))).unwrap();
    assert_eq!(
        text,
        "Compound 'Outer'\n  Compound 'inner'\n    Byte 'a' -15\n  EndCompound\nEndCompound"
    );
}

#[test]
fn transcript_of_every_kind() {
    let value = record(
        "Root",
        vec![
            field("flag", Data::Bool(true)),
            field("xs", list(vec![Data::I32(42), Data::I32(-1)])),
            field("inner", record("Inner", vec![field("name", Data::Str("HELLO".to_string()))])),
            field("short", Data::I16(-32768)),
            field("long", Data::I64(i64::MIN)),
            field("float", Data::F32 { bits: 0.5f32.to_bits(), text: format!("{}", 0.5f32) }),
            field("double", Data::F64 { bits: 0.75f64.to_bits(), text: format!("{}", 0.75f64) }),
            field("ba", as_nbt_array::serialize(list(vec![Data::I8(-1), Data::I8(2)]))),
            field("ia", as_nbt_array::serialize(list(vec![Data::I32(7)]))),
            field("la", as_nbt_array::serialize(list(vec![Data::I64(300)]))),
            field(
                "cs",
                list(vec![record("C", vec![field("k", Data::I8(0))])]),
            ),
            field(
                "fs",
                list(vec![Data::F32 { bits: 1.5f32.to_bits(), text: "1.5".to_string() }]),
            ),
            field(
                "ds",
                list(vec![Data::F64 { bits: 2.5f64.to_bits(), text: "2.5".to_string() }]),
            ),
            field("ss", list(vec![Data::Str("x y".to_string())])),
            field("hs", list(vec![Data::I16(9)])),
            field("ls", list(vec![Data::I64(10)])),
            field("bs", list(vec![Data::I8(11)])),
            field("none", list(vec![])),
        ],
    );
    let text = to_string_transcript(Root::from(("root", &value))).unwrap();
    let expected = "\
Compound 'root'
  Byte 'flag' 1
  List 'xs': [3; 2]
    Int 42
    Int -1
  EndList
  Compound 'inner'
    String 'name' HELLO
  EndCompound
  Short 'short' -32768
  Long 'long' -9223372036854775808
  Float 'float' 0.5
  Double 'double' 0.75
  ByteArray 'ba': [Byte; 2]
    Byte -1
    Byte 2
  EndArray
  IntArray 'ia': [Int; 1]
    Int 7
  EndArray
  LongArray 'la': [Long; 1]
    Long 300
  EndArray
  List 'cs': [10; 1]
    Compound
      Byte 'k' 0
    EndCompound
  EndList
  List 'fs': [5; 1]
    Float 1.5
  EndList
  List 'ds': [6; 1]
    Double 2.5
  EndList
  List 'ss': [8; 1]
    String x y
  EndList
  List 'hs': [2; 1]
    Short 9
  EndList
  List 'ls': [4; 1]
    Long 10
  EndList
  List 'bs': [1; 1]
    Byte 11
  EndList
  List 'none': [0; 0]
  EndList
EndCompound";
    assert_eq!(text, expected);
}

#[test]
fn scalar_root_has_no_newline() {
    let text = to_string_transcript(Root::from(("RenamedInt", &Data::I32(31415926)))).unwrap();
    assert_eq!(text, "Int 'RenamedInt' 31415926");
    let text = to_string_transcript(Root::from(&Data::I32(0))).unwrap();
    assert_eq!(text, "Int '' 0");
}

#[test]
fn struct_name_as_root_name() {
    let text = to_string_transcript(Root::from(&record("MyStruct", vec![]))).unwrap();
    assert_eq!(text, "Compound 'MyStruct'\nEndCompound");
    let text = to_string_transcript(Root::from(("Renamed", &record("MyStruct", vec![])))).unwrap();
    assert_eq!(text, "Compound 'Renamed'\nEndCompound");
}

#[test]
fn custom_indent() {
    let mut ser = Serializer::with_formatter(
        Vec::new(),
        TranscriptFormatter::with_indent(b"\t"),
        "r",
    );
    ser.serialize(&record("R", vec![field("a", Data::I8(1))])).unwrap();
    assert_eq!(ser.into_inner(), b"Compound 'r'\n\tByte 'a' 1\nEndCompound".to_vec());
}

#[test]
fn default_formatter_indents_by_two_spaces() {
    let f = TranscriptFormatter::default();
    assert_eq!(f.current_indent, 0);
    assert_eq!(f.indent, b"  ");
    let f = TranscriptFormatter::new();
    assert_eq!(f.indent, b"  ");
}

#[test]
fn indent_repeats_the_step() {
    let mut w = vec![b'|'];
    indent(&mut w, 3, b"ab");
    assert_eq!(w, b"|ababab".to_vec());
    indent(&mut w, 0, b"ab");
    assert_eq!(w, b"|ababab".to_vec());
}

#[test]
fn closing_at_depth_zero_stays_at_zero() {
    let mut f = TranscriptFormatter::new();
    let mut w = Vec::new();
    f.close_list(&mut w);
    assert_eq!(f.current_indent, 0);
    assert_eq!(w, b"EndList".to_vec());
}

#[test]
fn name_that_is_not_utf8_is_shown_with_replacement() {
    let mut f = TranscriptFormatter::new();
    let mut w = Vec::new();
    f.write_byte_tag(&mut w, 1, &[0xFF], 3);
    assert_eq!(String::from_utf8(w).unwrap(), "Byte '\u{FFFD}' 3");
}

#[test]
fn binary_formatter_calls() {
    let mut f = BinaryFormatter;
    let mut w = Vec::new();
    f.write_list_tag(&mut w, 3, 2, 1, b"x");
    f.write_int_inner(&mut w, 1);
    f.write_int_inner(&mut w, -1);
    f.close_list(&mut w);
    f.write_array_head(&mut w, 12, 1, 0, b"");
    f.write_long_inner(&mut w, 1);
    f.close_array(&mut w);
    f.write_compound_inner(&mut w);
    f.write_end_tag(&mut w);
    assert_eq!(
        w,
        vec![
            9, 0, 1, b'x', 3, 0, 0, 0, 2, 0, 0, 0, 1, 0xFF, 0xFF, 0xFF, 0xFF, 12, 0, 0, 0, 0, 0,
            1, 0, 0, 0, 0, 0, 0, 0, 1, 0
        ]
    );
}
