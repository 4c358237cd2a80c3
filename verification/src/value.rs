//! A tag tree held in memory.

use crate::data::Data;
use crate::error::{Error, ErrorCode, Result};
use crate::map::{put, TagMap};
use crate::emit::bool_byte;
use vstd::prelude::*;

verus! {

/// Any value that a tag can hold.
///
/// A floating-point number is held as its bit pattern.
#[derive(Debug, PartialEq)]
pub enum Value {
    Byte(i8),
    Short(i16),
    Int(i32),
    Long(i64),
    Float(u32),
    Double(u64),
    ByteArray(Vec<i8>),
    String(String),
    List(Vec<Value>),
    Compound(TagMap),
    IntArray(Vec<i32>),
    LongArray(Vec<i64>),
}

/// The mathematical value of a [`Value`]. A compound is the sequence of its
/// entries, each name once.
pub enum ValueView {
    Byte(i8),
    Short(i16),
    Int(i32),
    Long(i64),
    Float(u32),
    Double(u64),
    ByteArray(Seq<i8>),
    String(Seq<char>),
    List(Seq<ValueView>),
    Compound(Seq<(Seq<char>, ValueView)>),
    IntArray(Seq<i32>),
    LongArray(Seq<i64>),
}

/// The values of the first `n` of `items`.
pub open spec fn items_view(items: Vec<Value>, n: nat) -> Seq<ValueView>
    recommends
        n <= items.len(),
    decreases items, n,
{
    if n == 0 || n > items.len() {
        Seq::empty()
    } else {
        items_view(items, (n - 1) as nat).push(items[n - 1].view())
    }
}

/// The names and values of the first `n` of `entries`.
pub open spec fn entries_view(entries: Vec<(String, Value)>, n: nat) -> Seq<(Seq<char>, ValueView)>
    recommends
        n <= entries.len(),
    decreases entries, n,
{
    if n == 0 || n > entries.len() {
        Seq::empty()
    } else {
        entries_view(entries, (n - 1) as nat).push((entries[n - 1].0@, entries[n - 1].1.view()))
    }
}

impl View for Value {
    type V = ValueView;

    open spec fn view(&self) -> ValueView
        decreases self, 0nat,
    {
        match self {
            Value::Byte(v) => ValueView::Byte(*v),
            Value::Short(v) => ValueView::Short(*v),
            Value::Int(v) => ValueView::Int(*v),
            Value::Long(v) => ValueView::Long(*v),
            Value::Float(v) => ValueView::Float(*v),
            Value::Double(v) => ValueView::Double(*v),
            Value::ByteArray(v) => ValueView::ByteArray(v@),
            Value::String(v) => ValueView::String(v@),
            Value::List(v) => ValueView::List(items_view(*v, v.len() as nat)),
            Value::Compound(m) => ValueView::Compound(
                entries_view(m.entries, m.entries.len() as nat),
            ),
            Value::IntArray(v) => ValueView::IntArray(v@),
            Value::LongArray(v) => ValueView::LongArray(v@),
        }
    }
}

/// The view of the first `n` items, item by item.
pub proof fn lemma_items_view(items: Vec<Value>, n: nat)
    requires
        n <= items.len(),
    ensures
        items_view(items, n).len() == n,
        forall|i: int| 0 <= i < n ==> #[trigger] items_view(items, n)[i] == items[i].view(),
    decreases n,
{
    if n > 0 {
        lemma_items_view(items, (n - 1) as nat);
        assert(items_view(items, n) == items_view(items, (n - 1) as nat).push(
            items[n - 1].view(),
        ));
    }
}

/// The view of the first `n` entries, entry by entry.
pub proof fn lemma_entries_view(entries: Vec<(String, Value)>, n: nat)
    requires
        n <= entries.len(),
    ensures
        entries_view(entries, n).len() == n,
        forall|i: int|
            0 <= i < n ==> #[trigger] entries_view(entries, n)[i] == (
                entries[i].0@,
                entries[i].1.view(),
            ),
    decreases n,
{
    if n > 0 {
        lemma_entries_view(entries, (n - 1) as nat);
        assert(entries_view(entries, n) == entries_view(entries, (n - 1) as nat).push(
            (entries[n - 1].0@, entries[n - 1].1.view()),
        ));
    }
}

/// The tree that a piece of data comes to: a number or a string as it
/// stands, a newtype struct as what it wraps, a struct as the compound of
/// its fields. No other kind of data has a tree.
pub open spec fn tree_of(value: Data) -> core::result::Result<ValueView, ErrorCode>
    decreases value, 0nat,
{
    match value {
        Data::Bool(b) => Ok(ValueView::Byte(bool_byte(b))),
        Data::I8(v) => Ok(ValueView::Byte(v)),
        Data::I16(v) => Ok(ValueView::Short(v)),
        Data::I32(v) => Ok(ValueView::Int(v)),
        Data::I64(v) => Ok(ValueView::Long(v)),
        Data::F32 { bits, text } => Ok(ValueView::Float(bits)),
        Data::F64 { bits, text } => Ok(ValueView::Double(bits)),
        Data::Str(s) => Ok(ValueView::String(s@)),
        Data::NewtypeStruct(_, inner) => tree_of(*inner),
        Data::Struct(_, fields) => match trees_of(fields, fields.len() as nat) {
            Ok(entries) => Ok(ValueView::Compound(entries)),
            Err(code) => Err(code),
        },
        _ => Err(ErrorCode::UnsupportedType),
    }
}

/// The entries that the first `n` fields of a struct come to.
pub open spec fn trees_of(fields: Vec<(String, Data)>, n: nat) -> core::result::Result<
    Seq<(Seq<char>, ValueView)>,
    ErrorCode,
>
    recommends
        n <= fields.len(),
    decreases fields, n,
{
    if n == 0 || n > fields.len() {
        Ok(Seq::empty())
    } else {
        match trees_of(fields, (n - 1) as nat) {
            Err(code) => Err(code),
            Ok(before) => match tree_of(fields[n - 1].1) {
                Err(code) => Err(code),
                Ok(v) => Ok(put(before, fields[n - 1].0@, v)),
            },
        }
    }
}

/// A failure among the first `n` fields is the failure of the whole.
proof fn lemma_trees_fail(fields: Vec<(String, Data)>, n: nat, m: nat)
    requires
        n <= m <= fields.len(),
        trees_of(fields, n) is Err,
    ensures
        trees_of(fields, m) == trees_of(fields, n),
    decreases m,
{
    if n < m {
        lemma_trees_fail(fields, n, (m - 1) as nat);
    }
}

/// Makes a tree of a piece of data.
pub fn to_value(value: &Data) -> (r: Result<Value>)
    ensures
        match tree_of(*value) {
            Ok(v) => r is Ok && r->Ok_0@ == v,
            Err(code) => r is Err && r->Err_0 == (Error { code, index: 0 }),
        },
    decreases *value,
{
    match value {
        Data::Bool(b) => Ok(
            Value::Byte(
                if *b {
                    1
                } else {
                    0
                },
            ),
        ),
        Data::I8(v) => Ok(Value::Byte(*v)),
        Data::I16(v) => Ok(Value::Short(*v)),
        Data::I32(v) => Ok(Value::Int(*v)),
        Data::I64(v) => Ok(Value::Long(*v)),
        Data::F32 { bits, text } => Ok(Value::Float(*bits)),
        Data::F64 { bits, text } => Ok(Value::Double(*bits)),
        Data::Str(s) => Ok(Value::String(s.clone())),
        Data::NewtypeStruct(_, inner) => to_value(inner),
        Data::Struct(_, fields) => {
            let mut map = TagMap::new();
            let mut i: usize = 0;
            while i < fields.len()
                invariant
                    i <= fields.len(),
                    *value is Struct,
                    value->Struct_1 == *fields,
                    trees_of(*fields, i as nat) == Ok::<Seq<(Seq<char>, ValueView)>, ErrorCode>(
                        map@,
                    ),
                decreases fields.len() - i,
            {
                let field = &fields[i];
                let tree = match to_value(&field.1) {
                    Ok(tree) => tree,
                    Err(e) => {
                        proof {
                            lemma_trees_fail(*fields, (i + 1) as nat, fields.len() as nat);
                        }
                        return Err(e);
                    },
                };
                map.insert(field.0.clone(), tree);
                i += 1;
            }
            Ok(Value::Compound(map))
        },
        _ => Err(Error::syntax(ErrorCode::UnsupportedType, 0)),
    }
}

} // verus!
