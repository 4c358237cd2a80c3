//! Numeric ids of the tag kinds.

use vstd::prelude::*;

verus! {

pub const TYPE_ID_END: u8 = 0;

pub const TYPE_ID_BYTE: u8 = 1;

pub const TYPE_ID_SHORT: u8 = 2;

pub const TYPE_ID_INT: u8 = 3;

pub const TYPE_ID_LONG: u8 = 4;

pub const TYPE_ID_FLOAT: u8 = 5;

pub const TYPE_ID_DOUBLE: u8 = 6;

pub const TYPE_ID_BYTE_ARRAY: u8 = 7;

pub const TYPE_ID_STRING: u8 = 8;

pub const TYPE_ID_LIST: u8 = 9;

pub const TYPE_ID_COMPOUND: u8 = 10;

pub const TYPE_ID_INT_ARRAY: u8 = 11;

pub const TYPE_ID_LONG_ARRAY: u8 = 12;

} // verus!
