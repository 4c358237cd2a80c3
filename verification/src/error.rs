//! When encoding or decoding goes wrong.

use crate::text::{decimal, hex, push_decimal, push_hex};
use vstd::prelude::*;
use vstd::string::StringExecFns;

verus! {

/// What went wrong with the byte source or sink.
#[derive(Clone, Copy, Debug, PartialEq, Eq, Structural)]
pub enum IoErrorKind {
    /// The source ended before a value was complete.
    UnexpectedEof,
    /// Any other failure that the source or sink reported.
    Other,
}

/// The kinds of failure.
#[derive(Debug, PartialEq, Eq)]
pub enum ErrorCode {
    /// A failure described in words by the caller's own data types.
    Message(String),
    /// The byte source or sink failed.
    Io(IoErrorKind),
    /// The data is of a kind that the format cannot represent.
    UnsupportedType,
    /// A list element is of a kind that cannot be a list payload.
    UnsupportedListInnerType,
    /// The array marker was applied to something that is no sequence.
    UnsupportedArrayType,
    /// An array element is neither a byte, an int nor a long.
    UnsupportedArrayInnerType,
    /// A string or a name is longer than its length prefix can say.
    InvalidStringLength,
    /// A map key is no string.
    KeyMustBeAString,
    /// A sequence does not know its length before its first element.
    SequenceSizeUnknown,
    /// An element of a list is of another kind than the list's header says.
    ListDifferentType,
    /// An element of an array is of another kind than the first.
    ArrayDifferentType,
    /// A boolean was asked for and the byte is neither 0 nor 1.
    InvalidBoolByte(i8),
    /// The bytes of a string are not UTF-8.
    InvalidUtf8String,
    /// The tag found (first) is not of the kind asked for (second).
    TypeIdMismatch(u8, u8),
    /// A tag id that the format does not know.
    TypeIdInvalid(u8),
    /// A length prefix is negative.
    InvalidLength(i32),
    /// The input slice ended before a value was complete.
    SliceUnexpectedEof,
}

/// A failure and the byte offset in the input at which it arose; offset 0
/// where no offset applies.
#[derive(Debug, PartialEq, Eq)]
pub struct Error {
    pub code: ErrorCode,
    pub index: usize,
}

/// A `Result` whose error is [`Error`].
pub type Result<T> = core::result::Result<T, Error>;

impl Error {
    pub fn syntax(code: ErrorCode, index: usize) -> (e: Self)
        ensures
            e == (Error { code, index }),
    {
        Self::from_inner(code, index)
    }

    pub fn io(kind: IoErrorKind) -> (e: Self)
        ensures
            e == (Error { code: ErrorCode::Io(kind), index: 0 }),
    {
        Self::from_inner(ErrorCode::Io(kind), 0)
    }

    pub fn io_at(kind: IoErrorKind, index: usize) -> (e: Self)
        ensures
            e == (Error { code: ErrorCode::Io(kind), index }),
    {
        Self::from_inner(ErrorCode::Io(kind), index)
    }

    pub fn utf8_at(index: usize) -> (e: Self)
        ensures
            e == (Error { code: ErrorCode::InvalidUtf8String, index }),
    {
        Self::from_inner(ErrorCode::InvalidUtf8String, index)
    }

    pub fn mismatch_at(mismatch: u8, expected: u8, index: usize) -> (e: Self)
        ensures
            e == (Error { code: ErrorCode::TypeIdMismatch(mismatch, expected), index }),
    {
        Self::from_inner(ErrorCode::TypeIdMismatch(mismatch, expected), index)
    }

    pub fn invalid_id_at(invalid_id: u8, index: usize) -> (e: Self)
        ensures
            e == (Error { code: ErrorCode::TypeIdInvalid(invalid_id), index }),
    {
        Self::from_inner(ErrorCode::TypeIdInvalid(invalid_id), index)
    }

    pub fn bool_at(invalid: i8, index: usize) -> (e: Self)
        ensures
            e == (Error { code: ErrorCode::InvalidBoolByte(invalid), index }),
    {
        Self::from_inner(ErrorCode::InvalidBoolByte(invalid), index)
    }

    pub fn invalid_len_at(invalid: i32, index: usize) -> (e: Self)
        ensures
            e == (Error { code: ErrorCode::InvalidLength(invalid), index }),
    {
        Self::from_inner(ErrorCode::InvalidLength(invalid), index)
    }

    pub fn slice_eof() -> (e: Self)
        ensures
            e == (Error { code: ErrorCode::SliceUnexpectedEof, index: 0 }),
    {
        Self::from_inner(ErrorCode::SliceUnexpectedEof, 0)
    }

    /// A failure that the caller's own data types describe in words.
    pub fn custom(msg: String) -> (e: Self)
        ensures
            e == (Error { code: ErrorCode::Message(msg), index: 0 }),
    {
        Self::from_inner(ErrorCode::Message(msg), 0)
    }

    pub fn from_inner(code: ErrorCode, index: usize) -> (e: Self)
        ensures
            e == (Error { code, index }),
    {
        Error { code, index }
    }
}

/// A number in decimal and, in brackets, in hexadecimal: `n` is the number,
/// `bits` its bit pattern.
pub open spec fn shown(n: int, bits: nat, width: nat) -> Seq<char> {
    decimal(n) + " (0x"@ + hex(bits, width) + ")"@
}

impl IoErrorKind {
    /// The failure in words.
    pub open spec fn text(self) -> Seq<char> {
        match self {
            IoErrorKind::UnexpectedEof => "failed to fill whole buffer"@,
            IoErrorKind::Other => "other error"@,
        }
    }
}

impl ErrorCode {
    /// The failure in words.
    pub open spec fn text(self) -> Seq<char> {
        match self {
            ErrorCode::Message(msg) => msg@,
            ErrorCode::Io(kind) => kind.text(),
            ErrorCode::UnsupportedType => "unsupported NBT type"@,
            ErrorCode::UnsupportedListInnerType => "unsupported NBT list-wrapped type"@,
            ErrorCode::UnsupportedArrayType => {
                "unsupported type for NBT arrays; a sequence is required"@
            },
            ErrorCode::UnsupportedArrayInnerType => "unsupported NBT array inner type"@,
            ErrorCode::InvalidStringLength => "invalid NBT string length"@,
            ErrorCode::KeyMustBeAString => "NBT key must be a string"@,
            ErrorCode::SequenceSizeUnknown => "size of NBT sequence is unknown"@,
            ErrorCode::ListDifferentType => "elements of one NBT list do not have the same type"@,
            ErrorCode::ArrayDifferentType => "elements of one NBT array do not have the same type"@,
            ErrorCode::InvalidBoolByte(invalid) => "invalid NBT boolean byte "@ + shown(
                invalid as int,
                (invalid as u8) as nat,
                2,
            ) + ", 0 or 1 expected"@,
            ErrorCode::InvalidUtf8String => "invalid utf-8 NBT string"@,
            ErrorCode::TypeIdMismatch(invalid, expected) => "mismatched NBT type id "@ + shown(
                invalid as int,
                invalid as nat,
                2,
            ) + ", expected "@ + shown(expected as int, expected as nat, 2),
            ErrorCode::TypeIdInvalid(invalid) => "invalid type id "@ + shown(
                invalid as int,
                invalid as nat,
                2,
            ),
            ErrorCode::InvalidLength(invalid) => "invalid length "@ + shown(
                invalid as int,
                (invalid as u32) as nat,
                4,
            ) + "; length must be positive for NBT"@,
            ErrorCode::SliceUnexpectedEof => "unexpected EOF when reading NBT source slice"@,
        }
    }

    /// The failure in words.
    pub fn message(&self) -> (r: String)
        ensures
            r@ == self.text(),
    {
        match self {
            ErrorCode::Message(msg) => msg.clone(),
            ErrorCode::Io(kind) => match kind {
                IoErrorKind::UnexpectedEof => String::from_str("failed to fill whole buffer"),
                IoErrorKind::Other => String::from_str("other error"),
            },
            ErrorCode::UnsupportedType => String::from_str("unsupported NBT type"),
            ErrorCode::UnsupportedListInnerType => String::from_str(
                "unsupported NBT list-wrapped type",
            ),
            ErrorCode::UnsupportedArrayType => String::from_str(
                "unsupported type for NBT arrays; a sequence is required",
            ),
            ErrorCode::UnsupportedArrayInnerType => String::from_str(
                "unsupported NBT array inner type",
            ),
            ErrorCode::InvalidStringLength => String::from_str("invalid NBT string length"),
            ErrorCode::KeyMustBeAString => String::from_str("NBT key must be a string"),
            ErrorCode::SequenceSizeUnknown => String::from_str("size of NBT sequence is unknown"),
            ErrorCode::ListDifferentType => String::from_str(
                "elements of one NBT list do not have the same type",
            ),
            ErrorCode::ArrayDifferentType => String::from_str(
                "elements of one NBT array do not have the same type",
            ),
            ErrorCode::InvalidBoolByte(invalid) => {
                let mut r = String::from_str("invalid NBT boolean byte ");
                let bits = #[verifier::truncate] (*invalid as u8);
                push_shown(&mut r, *invalid as i64, bits as u64, 2);
                r.append(", 0 or 1 expected");
                r
            },
            ErrorCode::InvalidUtf8String => String::from_str("invalid utf-8 NBT string"),
            ErrorCode::TypeIdMismatch(invalid, expected) => {
                let mut r = String::from_str("mismatched NBT type id ");
                push_shown(&mut r, *invalid as i64, *invalid as u64, 2);
                r.append(", expected ");
                push_shown(&mut r, *expected as i64, *expected as u64, 2);
                r
            },
            ErrorCode::TypeIdInvalid(invalid) => {
                let mut r = String::from_str("invalid type id ");
                push_shown(&mut r, *invalid as i64, *invalid as u64, 2);
                r
            },
            ErrorCode::InvalidLength(invalid) => {
                let mut r = String::from_str("invalid length ");
                let bits = #[verifier::truncate] (*invalid as u32);
                push_shown(&mut r, *invalid as i64, bits as u64, 4);
                r.append("; length must be positive for NBT");
                r
            },
            ErrorCode::SliceUnexpectedEof => String::from_str(
                "unexpected EOF when reading NBT source slice",
            ),
        }
    }
}

/// Appends a number in decimal and, in brackets, in hexadecimal.
fn push_shown(s: &mut String, n: i64, bits: u64, width: usize)
    ensures
        final(s)@ == old(s)@ + shown(n as int, bits as nat, width as nat),
{
    push_decimal(s, n);
    s.append(" (0x");
    push_hex(s, bits, width);
    s.append(")");
    assert(s@ =~= old(s)@ + shown(n as int, bits as nat, width as nat));
}

impl Error {
    /// The failure in words, behind the offset in the input where it has one.
    pub open spec fn text(self) -> Seq<char> {
        if self.index == 0 {
            self.code.text()
        } else {
            "(NBT input:"@ + decimal(self.index as int) + ") "@ + self.code.text()
        }
    }

    /// The failure in words, behind the offset in the input where it has one.
    pub fn message(&self) -> (r: String)
        ensures
            r@ == self.text(),
    {
        let code = self.code.message();
        if self.index == 0 {
            code
        } else {
            let mut r = String::from_str("(NBT input:");
            crate::text::push_digits(&mut r, self.index as u64);
            r.append(") ");
            r.append(code.as_str());
            r
        }
    }
}

} // verus!
