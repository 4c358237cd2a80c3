//! The dimension of a world, which a level stores as an int.

use crate::data::Data;
use crate::error::{Error, Result};
use crate::text::{decimal, push_decimal};
use crate::value::{Value, ValueView};
use vstd::prelude::*;
use vstd::string::StringExecFns;

verus! {

/// One of the three dimensions of a world.
#[derive(Debug, Clone, Copy, Eq, PartialEq, Hash, Structural)]
pub enum Dimension {
    /// The number 0.
    Overworld,
    /// The number -1.
    Nether,
    /// The number 1.
    TheEnd,
}

/// What is said of a value that is not the number of a dimension.
pub open spec fn refusal(value: ValueView) -> Seq<char> {
    match value {
        ValueView::Int(n) => "invalid value: integer `"@ + decimal(n as int)
            + "`, expected an integer 1, 0, or -1"@,
        _ => "invalid type, expected an integer 1, 0, or -1"@,
    }
}

impl Dimension {
    /// The number that stands for the dimension.
    pub open spec fn number(self) -> i32 {
        match self {
            Dimension::Overworld => 0i32,
            Dimension::Nether => -1i32,
            Dimension::TheEnd => 1i32,
        }
    }

    /// The dimension as data to encode: an int.
    pub fn serialize(&self) -> (r: Data)
        ensures
            r == Data::I32(self.number()),
    {
        let number: i32 = match *self {
            Dimension::Overworld => 0,
            Dimension::Nether => -1,
            Dimension::TheEnd => 1,
        };
        Data::I32(number)
    }

    /// The dimension that `value` stands for: the int 0, -1 or 1.
    pub fn visit_i32(value: i32) -> (r: Result<Dimension>)
        ensures
            match r {
                Ok(d) => d.number() == value,
                Err(e) => {
                    &&& value != 0 && value != -1 && value != 1
                    &&& e.index == 0
                    &&& e.code is Message
                    &&& e.code->Message_0@ == refusal(ValueView::Int(value))
                },
            },
    {
        if value == 0 {
            Ok(Dimension::Overworld)
        } else if value == -1 {
            Ok(Dimension::Nether)
        } else if value == 1 {
            Ok(Dimension::TheEnd)
        } else {
            let mut msg = String::from_str("invalid value: integer `");
            push_decimal(&mut msg, value as i64);
            msg.append("`, expected an integer 1, 0, or -1");
            Err(Error::custom(msg))
        }
    }

    /// The dimension that a decoded value stands for.
    pub fn deserialize(value: &Value) -> (r: Result<Dimension>)
        ensures
            match r {
                Ok(d) => value@ == ValueView::Int(d.number()),
                Err(e) => {
                    &&& !(value@ is Int && (value@->Int_0 == 0 || value@->Int_0 == -1
                        || value@->Int_0 == 1))
                    &&& e.index == 0
                    &&& e.code is Message
                    &&& e.code->Message_0@ == refusal(value@)
                },
            },
    {
        match value {
            Value::Int(n) => Dimension::visit_i32(*n),
            _ => Err(
                Error::custom(String::from_str("invalid type, expected an integer 1, 0, or -1")),
            ),
        }
    }
}

} // verus!
