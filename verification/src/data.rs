//! The data that the codec is asked to encode: one tree node for each kind of
//! value that a data type may present to an encoder.

use vstd::prelude::*;

verus! {

/// A value as its type presents it for encoding.
///
/// A floating-point number is carried as the bit pattern that goes on the
/// wire, together with the decimal text that a transcript shows for it.
#[derive(Debug, PartialEq)]
#[allow(inconsistent_fields)]
pub enum Data {
    Bool(bool),
    I8(i8),
    I16(i16),
    I32(i32),
    I64(i64),
    I128(i128),
    U8(u8),
    U16(u16),
    U32(u32),
    U64(u64),
    U128(u128),
    /// A binary32 number.
    F32 { bits: u32, text: String },
    /// A binary64 number.
    F64 { bits: u64, text: String },
    Char(char),
    Str(String),
    /// Raw bytes, as distinct from a sequence of integers.
    Bytes(Vec<u8>),
    /// An optional value that is absent.
    Nothing,
    /// An optional value that is present.
    Just(Box<Data>),
    Unit,
    /// A struct without fields, with its type's name.
    UnitStruct(String),
    /// An enum variant without data, with the variant's name.
    UnitVariant(String),
    /// A struct of one unnamed field, with its type's name.
    NewtypeStruct(String, Box<Data>),
    /// An enum variant of one unnamed field.
    NewtypeVariant,
    /// A sequence; `sized` says whether it announces its length before its
    /// first element.
    Sequence { sized: bool, items: Vec<Data> },
    Tuple(Vec<Data>),
    /// A struct of unnamed fields.
    TupleStruct,
    /// An enum variant of unnamed fields.
    TupleVariant,
    /// Keys and values, in the order in which the value presents them.
    Table(Vec<(Data, Data)>),
    /// A struct: its type's name, and its fields in declaration order.
    Struct(String, Vec<(String, Data)>),
    /// An enum variant of named fields.
    StructVariant,
}

} // verus!
