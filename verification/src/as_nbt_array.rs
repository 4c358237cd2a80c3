//! The marker by which a sequence of bytes, ints or longs asks to be encoded
//! as an array instead of a list.

use crate::data::Data;
use vstd::prelude::*;
use vstd::string::StringExecFns;

verus! {

/// The reserved type name of the marker. No data type of a caller bears it.
pub const TOKEN_ARRAY: &'static str = "$coruscant_nbt::private::__WrapAsArray";

/// Whether `name` is the marker's reserved type name.
pub fn is_array_token(name: &String) -> (r: bool)
    ensures
        r == (name@ == TOKEN_ARRAY@),
{
    let token = String::from_str(TOKEN_ARRAY);
    *name == token
}

/// Whether `marked` is `value` under the marker.
pub open spec fn is_marked(marked: Data, value: Data) -> bool {
    &&& marked is NewtypeStruct
    &&& marked->NewtypeStruct_0@ == TOKEN_ARRAY@
    &&& *marked->NewtypeStruct_1 == value
}

/// Puts `value` under the marker: a sequence of bytes, ints or longs so marked
/// is encoded as a byte array, an int array or a long array.
pub fn serialize(value: Data) -> (r: Data)
    ensures
        is_marked(r, value),
{
    Data::NewtypeStruct(String::from_str(TOKEN_ARRAY), Box::new(value))
}

} // verus!
