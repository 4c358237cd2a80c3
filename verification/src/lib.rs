//! Encoding and decoding of the Named Binary Tag format: a tree of tags, each
//! with a kind, a name and a payload, laid down big-endian and with length
//! prefixes.
//!
//! [`ser`] encodes [`Data`], the value that a data type presents, through a
//! [`formatter`]: onto the wire or into a transcript for the human eye.
//! [`de`] decodes bytes into a [`Value`], or step by step for a caller that
//! knows what it expects. [`emit`] says what encoding comes to, [`model`]
//! what a piece of data stands for, and [`laws`] what holds of encoding and
//! decoding together.

pub mod as_nbt_array;
pub mod consts;
pub mod data;
pub mod de;
pub mod dimension;
pub mod emit;
pub mod error;
pub mod flate;
pub mod formatter;
pub mod frame;
pub mod laws;
pub mod map;
pub mod model;
pub mod read;
pub mod root;
pub mod ser;
pub mod text;
pub mod value;
pub mod wire;

pub use as_nbt_array::serialize as to_array;
pub use data::Data;
pub use de::{from_gzip_reader, from_reader, from_slice, from_zlib_reader, Deserializer};
pub use error::{Error, Result};
pub use flate::Compression;
pub use map::TagMap;
pub use root::Root;
pub use ser::{
    to_gzip_writer, to_string_transcript, to_vec, to_writer, to_zlib_writer, Serializer,
};
pub use value::{to_value, Value};
