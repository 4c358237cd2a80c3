//! The encoder: it walks a piece of data and tells a formatter which tags to
//! write.

use crate::as_nbt_array::is_array_token;
use crate::consts;
use crate::data::Data;
use crate::emit::{
    advanced_by, array_element, array_elements, array_head, array_kind, emit, emit_array,
    emit_array_element, emit_array_end, emit_element, lemma_array_by_elements,
    emit_elements, emit_end, emit_entries, emit_fields, emit_inner, emit_list, enclosed,
    encoding, fits_prefix, inner_string, key_name, label, lemma_array_elements_fail,
    lemma_elements_fail, lemma_entries_fail, lemma_fields_fail, lemma_list_by_elements,
    binary_all, lemma_render_concat, lemma_render_one, lemma_render_transcript,
    lemma_transcript_text,
    list_kind, render_all, transcript_text, transcription, Emitted, Failed, Outcome,
};
use crate::error::{Error, ErrorCode, IoErrorKind, Result};
use crate::flate::{gzip, gzip_image, zlib, zlib_image, Compression};
use crate::formatter::{
    is_array_id, put_bytes, BinaryFormatter, Event, Formatter, TranscriptFormatter,
};
use crate::root::Root;
use crate::text::utf8_lossy;
use crate::wire::char_utf8;
use vstd::prelude::*;
use vstd::string::StringExecFns;
use vstd::utf8::encode_utf8;

verus! {

/// Whether the encoder still waits for the root's name.
#[derive(Clone, Copy, Debug, PartialEq, Eq, Structural)]
pub enum State {
    Root,
    Inner,
}

/// The encoder: a byte sink, a formatter, the name that the next tag will
/// bear, and whether the root's name is settled.
pub struct Serializer<F> {
    pub writer: Vec<u8>,
    pub formatter: F,
    pub next_name: String,
    pub state: State,
}

/// The failure `code`, which bears no offset.
pub open spec fn failure(code: ErrorCode) -> Error {
    Error { code, index: 0 }
}

/// Whether `r` is the failure `f`, and a writer that held `w0`, with its
/// formatter standing as `f0`, holds `w1` and has its formatter standing as
/// `f1` once the formatter calls that were made before the failure are
/// rendered.
pub open spec fn failed_by<F: Formatter>(
    w0: Seq<u8>,
    f0: F,
    w1: Seq<u8>,
    f1: F,
    r: Result<()>,
    f: Failed,
) -> bool {
    r == Err::<(), Error>(failure(f.code)) && advanced_by(w0, f0, w1, f1, f.events)
}

/// One formatter call after `before` have been rendered.
proof fn lemma_step<F: Formatter>(
    w0: Seq<u8>,
    f0: F,
    w1: Seq<u8>,
    f1: F,
    before: Seq<Event>,
    w2: Seq<u8>,
    f2: F,
    e: Event,
)
    requires
        advanced_by(w0, f0, w1, f1, before),
        w2 == w1 + f1.rendered(e),
        f2 == f1.advanced(e),
    ensures
        advanced_by(w0, f0, w2, f2, before + seq![e]),
        advanced_by(w0, f0, w2, f2, before.push(e)),
{
    lemma_render_one(f1, e);
    lemma_render_concat(f0, before, seq![e]);
    assert(w0 + (render_all(f0, before).0 + f1.rendered(e)) =~= (w0 + render_all(f0, before).0)
        + f1.rendered(e));
    assert(before + seq![e] =~= before.push(e));
}

/// Two runs of formatter calls, one after the other.
proof fn lemma_chain<F: Formatter>(
    w0: Seq<u8>,
    f0: F,
    w1: Seq<u8>,
    f1: F,
    a: Seq<Event>,
    w2: Seq<u8>,
    f2: F,
    b: Seq<Event>,
)
    requires
        advanced_by(w0, f0, w1, f1, a),
        advanced_by(w1, f1, w2, f2, b),
    ensures
        advanced_by(w0, f0, w2, f2, a + b),
{
    lemma_render_concat(f0, a, b);
    assert(w0 + (render_all(f0, a).0 + render_all(f1, b).0) =~= (w0 + render_all(f0, a).0)
        + render_all(f1, b).0);
}

/// Nothing rendered.
proof fn lemma_still<F: Formatter>(w0: Seq<u8>, f0: F)
    ensures
        advanced_by(w0, f0, w0, f0, Seq::empty()),
{
    assert(w0 + Seq::<u8>::empty() =~= w0);
}

/// The length of `text` as a length prefix says it.
fn prefix_len(text: &str) -> (r: Result<i16>)
    ensures
        fits_prefix(text@) ==> r == Ok::<i16, Error>(encode_utf8(text@).len() as i16),
        !fits_prefix(text@) ==> r == Err::<i16, Error>(failure(ErrorCode::InvalidStringLength)),
{
    let n = text.as_bytes().len();
    if n > 32767 {
        return Err(Error::syntax(ErrorCode::InvalidStringLength, 0));
    }
    Ok(n as i16)
}

pub fn unsupported_type() -> (e: Error)
    ensures
        e == failure(ErrorCode::UnsupportedType),
{
    Error::syntax(ErrorCode::UnsupportedType, 0)
}

pub fn sequence_size_unknown() -> (e: Error)
    ensures
        e == failure(ErrorCode::SequenceSizeUnknown),
{
    Error::syntax(ErrorCode::SequenceSizeUnknown, 0)
}

pub fn key_must_be_a_string() -> (e: Error)
    ensures
        e == failure(ErrorCode::KeyMustBeAString),
{
    Error::syntax(ErrorCode::KeyMustBeAString, 0)
}

pub fn list_different_type() -> (e: Error)
    ensures
        e == failure(ErrorCode::ListDifferentType),
{
    Error::syntax(ErrorCode::ListDifferentType, 0)
}

pub fn unsupported_list_inner_type() -> (e: Error)
    ensures
        e == failure(ErrorCode::UnsupportedListInnerType),
{
    Error::syntax(ErrorCode::UnsupportedListInnerType, 0)
}

pub fn unsupported_array_type() -> (e: Error)
    ensures
        e == failure(ErrorCode::UnsupportedArrayType),
{
    Error::syntax(ErrorCode::UnsupportedArrayType, 0)
}

pub fn array_different_type() -> (e: Error)
    ensures
        e == failure(ErrorCode::ArrayDifferentType),
{
    Error::syntax(ErrorCode::ArrayDifferentType, 0)
}

pub fn unsupported_array_inner_type() -> (e: Error)
    ensures
        e == failure(ErrorCode::UnsupportedArrayInnerType),
{
    Error::syntax(ErrorCode::UnsupportedArrayInnerType, 0)
}

impl<F> Serializer<F> {
    /// An encoder that writes behind what `writer` holds, through `formatter`,
    /// and gives the root the name `root_name`.
    pub fn with_formatter(writer: Vec<u8>, formatter: F, root_name: &str) -> (r: Self)
        ensures
            r.writer == writer,
            r.formatter == formatter,
            r.next_name@ == root_name@,
            r.state is Root,
    {
        Self::new(writer, formatter, root_name)
    }

    /// Hands out the byte sink.
    pub fn into_inner(self) -> (r: Vec<u8>)
        ensures
            r == self.writer,
    {
        self.writer
    }

    fn new(writer: Vec<u8>, formatter: F, root_name: &str) -> (r: Self)
        ensures
            r.writer == writer,
            r.formatter == formatter,
            r.next_name@ == root_name@,
            r.state is Root,
    {
        Serializer { writer, formatter, next_name: String::from_str(root_name), state: State::Root }
    }
}

impl Serializer<BinaryFormatter> {
    /// An encoder of the wire format.
    pub fn binary(writer: Vec<u8>, root_name: &str) -> (r: Self)
        ensures
            r.writer == writer,
            r.next_name@ == root_name@,
            r.state is Root,
    {
        Self::new(writer, BinaryFormatter, root_name)
    }
}

impl<'a> Serializer<TranscriptFormatter<'a>> {
    /// An encoder of transcripts, indented by two spaces.
    pub fn transcript(writer: Vec<u8>, root_name: &str) -> (r: Self)
        ensures
            r.writer == writer,
            r.formatter.current_indent == 0,
            r.formatter.indent@ == encode_utf8("  "@),
            r.next_name@ == root_name@,
            r.state is Root,
    {
        Self::new(writer, TranscriptFormatter::new(), root_name)
    }
}

impl<F: Formatter> Serializer<F> {
    /// Whether `self` is what `before` becomes by a call that returns `r`,
    /// where `out` is what the encoder makes of the data: on success the
    /// formatter calls of `out` have been rendered behind what the writer
    /// held; a failure is that of `out`, and the formatter calls that were
    /// made before it was found have been rendered, and no others.
    pub open spec fn follows(self, before: Self, r: Result<()>, out: Outcome) -> bool {
        match out {
            Ok(em) => {
                &&& r is Ok
                &&& advanced_by(
                    before.writer@,
                    before.formatter,
                    self.writer@,
                    self.formatter,
                    em.events,
                )
                &&& (self.state is Root) == em.root
            },
            Err(f) => failed_by(
                before.writer@,
                before.formatter,
                self.writer@,
                self.formatter,
                r,
                f,
            ),
        }
    }

    /// Encodes `value` as a tag under the pending name.
    pub fn serialize(&mut self, value: &Data) -> (r: Result<()>)
        ensures
            final(self).follows(
                *old(self),
                r,
                emit(*value, old(self).next_name@, old(self).state is Root),
            ),
        decreases *value, 0nat,
    {
        let ghost w0 = self.writer@;
        let ghost f0 = self.formatter;
        let ghost name = label(self.next_name@);
        proof {
            lemma_still(w0, f0);
        }
        match value {
            Data::Bool(b) => {
                let len = prefix_len(self.next_name.as_str())?;
                let byte: i8 = if *b {
                    1
                } else {
                    0
                };
                self.formatter.write_byte_tag(
                    &mut self.writer,
                    len,
                    self.next_name.as_str().as_bytes(),
                    byte,
                );
                proof {
                    lemma_render_one(f0, Event::ByteTag { name, value: byte });
                }
                Ok(())
            },
            Data::I8(v) => {
                let len = prefix_len(self.next_name.as_str())?;
                self.formatter.write_byte_tag(
                    &mut self.writer,
                    len,
                    self.next_name.as_str().as_bytes(),
                    *v,
                );
                proof {
                    lemma_render_one(f0, Event::ByteTag { name, value: *v });
                }
                Ok(())
            },
            Data::I16(v) => {
                let len = prefix_len(self.next_name.as_str())?;
                self.formatter.write_short_tag(
                    &mut self.writer,
                    len,
                    self.next_name.as_str().as_bytes(),
                    *v,
                );
                proof {
                    lemma_render_one(f0, Event::ShortTag { name, value: *v });
                }
                Ok(())
            },
            Data::I32(v) => {
                let len = prefix_len(self.next_name.as_str())?;
                self.formatter.write_int_tag(
                    &mut self.writer,
                    len,
                    self.next_name.as_str().as_bytes(),
                    *v,
                );
                proof {
                    lemma_render_one(f0, Event::IntTag { name, value: *v });
                }
                Ok(())
            },
            Data::I64(v) => {
                let len = prefix_len(self.next_name.as_str())?;
                self.formatter.write_long_tag(
                    &mut self.writer,
                    len,
                    self.next_name.as_str().as_bytes(),
                    *v,
                );
                proof {
                    lemma_render_one(f0, Event::LongTag { name, value: *v });
                }
                Ok(())
            },
            Data::F32 { bits, text } => {
                let len = prefix_len(self.next_name.as_str())?;
                self.formatter.write_float_tag(
                    &mut self.writer,
                    len,
                    self.next_name.as_str().as_bytes(),
                    *bits,
                    text.as_str(),
                );
                proof {
                    lemma_render_one(f0, Event::FloatTag { name, bits: *bits, text: text@ });
                }
                Ok(())
            },
            Data::F64 { bits, text } => {
                let len = prefix_len(self.next_name.as_str())?;
                self.formatter.write_double_tag(
                    &mut self.writer,
                    len,
                    self.next_name.as_str().as_bytes(),
                    *bits,
                    text.as_str(),
                );
                proof {
                    lemma_render_one(f0, Event::DoubleTag { name, bits: *bits, text: text@ });
                }
                Ok(())
            },
            Data::Char(c) => {
                let len = prefix_len(self.next_name.as_str())?;
                let buf = char_utf8(*c);
                self.formatter.write_string_tag(
                    &mut self.writer,
                    len,
                    self.next_name.as_str().as_bytes(),
                    buf.len() as i16,
                    buf.as_slice(),
                );
                proof {
                    lemma_render_one(
                        f0,
                        Event::StringTag { name, len: buf.len() as i16, bytes: buf@ },
                    );
                }
                Ok(())
            },
            Data::Str(s) => {
                let string_len = prefix_len(s.as_str())?;
                let len = prefix_len(self.next_name.as_str())?;
                self.formatter.write_string_tag(
                    &mut self.writer,
                    len,
                    self.next_name.as_str().as_bytes(),
                    string_len,
                    s.as_str().as_bytes(),
                );
                proof {
                    lemma_render_one(
                        f0,
                        Event::StringTag { name, len: string_len, bytes: encode_utf8(s@) },
                    );
                }
                Ok(())
            },
            Data::Nothing => Ok(()),
            Data::Just(inner) => self.serialize(inner),
            Data::UnitStruct(_) => {
                let len = prefix_len(self.next_name.as_str())?;
                self.formatter.write_compound_tag(
                    &mut self.writer,
                    len,
                    self.next_name.as_str().as_bytes(),
                );
                let ghost w1 = self.writer@;
                let ghost f1 = self.formatter;
                self.formatter.write_end_tag(&mut self.writer);
                proof {
                    lemma_step(
                        w0,
                        f0,
                        w0,
                        f0,
                        Seq::empty(),
                        w1,
                        f1,
                        Event::CompoundTag { name },
                    );
                    lemma_step(
                        w0,
                        f0,
                        w1,
                        f1,
                        seq![Event::CompoundTag { name }],
                        self.writer@,
                        self.formatter,
                        Event::EndTag,
                    );
                    assert(seq![Event::CompoundTag { name }].push(Event::EndTag) =~= seq![
                        Event::CompoundTag { name },
                        Event::EndTag,
                    ]);
                }
                Ok(())
            },
            Data::NewtypeStruct(nominal, inner) => {
                if is_array_token(nominal) {
                    self.serialize_array(inner)
                } else {
                    self.serialize(inner)
                }
            },
            Data::Sequence { sized, items } => {
                if *sized {
                    self.serialize_list(items)
                } else {
                    Err(sequence_size_unknown())
                }
            },
            Data::Tuple(items) => self.serialize_list(items),
            Data::Table(entries) => {
                let len = prefix_len(self.next_name.as_str())?;
                self.formatter.write_compound_tag(
                    &mut self.writer,
                    len,
                    self.next_name.as_str().as_bytes(),
                );
                let ghost open = Event::CompoundTag { name };
                proof {
                    lemma_step(w0, f0, w0, f0, Seq::empty(), self.writer@, self.formatter, open);
                }
                self.close_entries(entries, Ghost(w0), Ghost(f0), Ghost(open))
            },
            Data::Struct(nominal, fields) => {
                if self.state == State::Root && self.next_name.as_str().is_empty() {
                    let len = prefix_len(nominal.as_str())?;
                    self.state = State::Inner;
                    self.formatter.write_compound_tag(
                        &mut self.writer,
                        len,
                        nominal.as_str().as_bytes(),
                    );
                } else {
                    let len = prefix_len(self.next_name.as_str())?;
                    self.formatter.write_compound_tag(
                        &mut self.writer,
                        len,
                        self.next_name.as_str().as_bytes(),
                    );
                }
                let ghost shown = if old(self).state is Root && old(self).next_name@.len() == 0 {
                    nominal@
                } else {
                    old(self).next_name@
                };
                let ghost open = Event::CompoundTag { name: label(shown) };
                proof {
                    lemma_step(w0, f0, w0, f0, Seq::empty(), self.writer@, self.formatter, open);
                }
                self.close_fields(fields, Ghost(w0), Ghost(f0), Ghost(open))
            },
            _ => Err(unsupported_type()),
        }
    }

    /// Writes the entries of a compound that `open` has opened, and its end.
    fn close_entries(
        &mut self,
        entries: &Vec<(Data, Data)>,
        Ghost(w0): Ghost<Seq<u8>>,
        Ghost(f0): Ghost<F>,
        Ghost(open): Ghost<Event>,
    ) -> (r: Result<()>)
        requires
            advanced_by(w0, f0, old(self).writer@, old(self).formatter, seq![open]),
        ensures
            match enclosed(
                open,
                emit_entries(*entries, entries.len() as nat, old(self).state is Root),
                Event::EndTag,
            ) {
                Ok(em) => {
                    &&& r is Ok
                    &&& advanced_by(w0, f0, final(self).writer@, final(self).formatter, em.events)
                    &&& (final(self).state is Root) == em.root
                },
                Err(f) => failed_by(w0, f0, final(self).writer@, final(self).formatter, r, f),
            },
        decreases *entries, entries.len() + 1,
    {
        let ghost w1 = self.writer@;
        let ghost f1 = self.formatter;
        match self.serialize_entries(entries) {
            Ok(()) => {},
            Err(e) => {
                proof {
                    let f = emit_entries(
                        *entries,
                        entries.len() as nat,
                        old(self).state is Root,
                    )->Err_0;
                    lemma_chain(w0, f0, w1, f1, seq![open], self.writer@, self.formatter, f.events);
                }
                return Err(e);
            },
        }
        let ghost inner = emit_entries(
            *entries,
            entries.len() as nat,
            old(self).state is Root,
        )->Ok_0;
        let ghost w2 = self.writer@;
        let ghost f2 = self.formatter;
        SerializeCompound.end(self);
        proof {
            lemma_chain(w0, f0, w1, f1, seq![open], w2, f2, inner.events);
            lemma_chain(
                w0,
                f0,
                w2,
                f2,
                seq![open] + inner.events,
                self.writer@,
                self.formatter,
                seq![Event::EndTag],
            );
        }
        Ok(())
    }

    /// Writes the fields of a compound that `open` has opened, and its end.
    fn close_fields(
        &mut self,
        fields: &Vec<(String, Data)>,
        Ghost(w0): Ghost<Seq<u8>>,
        Ghost(f0): Ghost<F>,
        Ghost(open): Ghost<Event>,
    ) -> (r: Result<()>)
        requires
            advanced_by(w0, f0, old(self).writer@, old(self).formatter, seq![open]),
        ensures
            match enclosed(
                open,
                emit_fields(*fields, fields.len() as nat, old(self).state is Root),
                Event::EndTag,
            ) {
                Ok(em) => {
                    &&& r is Ok
                    &&& advanced_by(w0, f0, final(self).writer@, final(self).formatter, em.events)
                    &&& (final(self).state is Root) == em.root
                },
                Err(f) => failed_by(w0, f0, final(self).writer@, final(self).formatter, r, f),
            },
        decreases *fields, fields.len() + 1,
    {
        let ghost w1 = self.writer@;
        let ghost f1 = self.formatter;
        match self.serialize_fields(fields) {
            Ok(()) => {},
            Err(e) => {
                proof {
                    let f = emit_fields(
                        *fields,
                        fields.len() as nat,
                        old(self).state is Root,
                    )->Err_0;
                    lemma_chain(w0, f0, w1, f1, seq![open], self.writer@, self.formatter, f.events);
                }
                return Err(e);
            },
        }
        let ghost inner = emit_fields(*fields, fields.len() as nat, old(self).state is Root)->Ok_0;
        let ghost w2 = self.writer@;
        let ghost f2 = self.formatter;
        SerializeCompound.end(self);
        proof {
            lemma_chain(w0, f0, w1, f1, seq![open], w2, f2, inner.events);
            lemma_chain(
                w0,
                f0,
                w2,
                f2,
                seq![open] + inner.events,
                self.writer@,
                self.formatter,
                seq![Event::EndTag],
            );
        }
        Ok(())
    }

    /// Encodes the entries of a map, each value under the name that its key
    /// gives.
    fn serialize_entries(&mut self, entries: &Vec<(Data, Data)>) -> (r: Result<()>)
        ensures
            final(self).follows(
                *old(self),
                r,
                emit_entries(*entries, entries.len() as nat, old(self).state is Root),
            ),
        decreases *entries, entries.len(),
    {
        let ghost w0 = self.writer@;
        let ghost f0 = self.formatter;
        let ghost root = self.state is Root;
        proof {
            lemma_still(w0, f0);
        }
        let mut i: usize = 0;
        while i < entries.len()
            invariant
                i <= entries.len(),
                root == (old(self).state is Root),
                w0 == old(self).writer@,
                f0 == old(self).formatter,
                emit_entries(*entries, i as nat, root) is Ok,
                advanced_by(
                    w0,
                    f0,
                    self.writer@,
                    self.formatter,
                    emit_entries(*entries, i as nat, root)->Ok_0.events,
                ),
                (self.state is Root) == emit_entries(*entries, i as nat, root)->Ok_0.root,
            decreases entries.len() - i,
        {
            let ghost before = emit_entries(*entries, i as nat, root)->Ok_0;
            let ghost w1 = self.writer@;
            let ghost f1 = self.formatter;
            let entry = &entries[i];
            let mut compound = SerializeCompound;
            match compound.serialize_key(self, &entry.0) {
                Ok(()) => {},
                Err(e) => {
                    proof {
                        assert(emit_entries(*entries, (i + 1) as nat, root) is Err);
                        lemma_entries_fail(*entries, (i + 1) as nat, entries.len() as nat, root);
                    }
                    return Err(e);
                },
            }
            match compound.serialize_value(self, &entry.1) {
                Ok(()) => {},
                Err(e) => {
                    proof {
                        let f = emit(entry.1, key_name(entry.0)->Ok_0, before.root)->Err_0;
                        lemma_chain(
                            w0,
                            f0,
                            w1,
                            f1,
                            before.events,
                            self.writer@,
                            self.formatter,
                            f.events,
                        );
                        assert(emit_entries(*entries, (i + 1) as nat, root) is Err);
                        lemma_entries_fail(*entries, (i + 1) as nat, entries.len() as nat, root);
                    }
                    return Err(e);
                },
            }
            proof {
                let last = emit(entry.1, key_name(entry.0)->Ok_0, before.root)->Ok_0;
                lemma_chain(
                    w0,
                    f0,
                    w1,
                    f1,
                    before.events,
                    self.writer@,
                    self.formatter,
                    last.events,
                );
            }
            i += 1;
        }
        Ok(())
    }

    /// Encodes the fields of a struct, each under its own name.
    fn serialize_fields(&mut self, fields: &Vec<(String, Data)>) -> (r: Result<()>)
        ensures
            final(self).follows(
                *old(self),
                r,
                emit_fields(*fields, fields.len() as nat, old(self).state is Root),
            ),
        decreases *fields, fields.len(),
    {
        let ghost w0 = self.writer@;
        let ghost f0 = self.formatter;
        let ghost root = self.state is Root;
        proof {
            lemma_still(w0, f0);
        }
        let mut i: usize = 0;
        while i < fields.len()
            invariant
                i <= fields.len(),
                root == (old(self).state is Root),
                w0 == old(self).writer@,
                f0 == old(self).formatter,
                emit_fields(*fields, i as nat, root) is Ok,
                advanced_by(
                    w0,
                    f0,
                    self.writer@,
                    self.formatter,
                    emit_fields(*fields, i as nat, root)->Ok_0.events,
                ),
                (self.state is Root) == emit_fields(*fields, i as nat, root)->Ok_0.root,
            decreases fields.len() - i,
        {
            let ghost before = emit_fields(*fields, i as nat, root)->Ok_0;
            let ghost w1 = self.writer@;
            let ghost f1 = self.formatter;
            let field = &fields[i];
            let mut compound = SerializeCompound;
            match compound.serialize_field(self, field.0.as_str(), &field.1) {
                Ok(()) => {},
                Err(e) => {
                    proof {
                        let f = emit(field.1, field.0@, before.root)->Err_0;
                        lemma_chain(
                            w0,
                            f0,
                            w1,
                            f1,
                            before.events,
                            self.writer@,
                            self.formatter,
                            f.events,
                        );
                        assert(emit_fields(*fields, (i + 1) as nat, root) is Err);
                        lemma_fields_fail(*fields, (i + 1) as nat, fields.len() as nat, root);
                    }
                    return Err(e);
                },
            }
            proof {
                let last = emit(field.1, field.0@, before.root)->Ok_0;
                lemma_chain(
                    w0,
                    f0,
                    w1,
                    f1,
                    before.events,
                    self.writer@,
                    self.formatter,
                    last.events,
                );
            }
            i += 1;
        }
        Ok(())
    }

    /// Takes the pending name from a map key.
    pub fn serialize_key(&mut self, key: &Data) -> (r: Result<()>)
        ensures
            final(self).writer == old(self).writer,
            final(self).formatter == old(self).formatter,
            final(self).state == old(self).state,
            match key_name(*key) {
                Ok(name) => r is Ok && final(self).next_name@ == name,
                Err(code) => r == Err::<(), Error>(failure(code)) && final(self).next_name
                    == old(self).next_name,
            },
        decreases *key,
    {
        match key {
            Data::Str(s) => {
                self.next_name = s.clone();
                Ok(())
            },
            Data::UnitVariant(variant) => {
                self.next_name = variant.clone();
                Ok(())
            },
            Data::NewtypeStruct(_, inner) => self.serialize_key(inner),
            _ => Err(key_must_be_a_string()),
        }
    }

    /// Encodes `items` as a list under the pending name.
    fn serialize_list(&mut self, items: &Vec<Data>) -> (r: Result<()>)
        ensures
            final(self).follows(
                *old(self),
                r,
                emit_list(*items, old(self).next_name@, old(self).state is Root),
            ),
        decreases *items, items.len() + 1,
    {
        let ghost w0 = self.writer@;
        let ghost f0 = self.formatter;
        let ghost root = self.state is Root;
        let ghost name = self.next_name@;
        let n = items.len();
        proof {
            lemma_still(w0, f0);
        }
        if n > 2147483647 {
            return Err(unsupported_type());
        }
        let mut list = SerializeList { type_id: None, len: n };
        if n == 0 {
            return list.end(self);
        }
        proof {
            lemma_list_by_elements(*items, name, root);
        }
        match list.serialize_element(self, &items[0]) {
            Ok(()) => {},
            Err(e) => {
                return Err(e);
            },
        }
        self.serialize_tail(list, items, Ghost(w0), Ghost(f0), Ghost(root), Ghost(name))
    }

    /// Writes the elements of a list from the second on, and the close.
    fn serialize_tail(
        &mut self,
        list: SerializeList,
        items: &Vec<Data>,
        Ghost(w0): Ghost<Seq<u8>>,
        Ghost(f0): Ghost<F>,
        Ghost(root): Ghost<bool>,
        Ghost(name): Ghost<Seq<char>>,
    ) -> (r: Result<()>)
        requires
            0 < items.len() <= i32::MAX,
            list.len == items.len(),
            list_kind(items[0]) is Ok,
            list.type_id == Some(list_kind(items[0])->Ok_0),
            emit_elements(*items, 1, list_kind(items[0])->Ok_0, root) is Ok,
            advanced_by(
                w0,
                f0,
                old(self).writer@,
                old(self).formatter,
                seq![
                    Event::ListTag {
                        type_id: list_kind(items[0])->Ok_0,
                        len: items.len() as i32,
                        name: label(name),
                    },
                ] + emit_elements(*items, 1, list_kind(items[0])->Ok_0, root)->Ok_0.events,
            ),
            (old(self).state is Root) == emit_elements(
                *items,
                1,
                list_kind(items[0])->Ok_0,
                root,
            )->Ok_0.root,
        ensures
            match enclosed(
                Event::ListTag {
                    type_id: list_kind(items[0])->Ok_0,
                    len: items.len() as i32,
                    name: label(name),
                },
                emit_elements(*items, items.len() as nat, list_kind(items[0])->Ok_0, root),
                Event::CloseList,
            ) {
                Ok(em) => {
                    &&& r is Ok
                    &&& advanced_by(w0, f0, final(self).writer@, final(self).formatter, em.events)
                    &&& (final(self).state is Root) == em.root
                },
                Err(f) => failed_by(w0, f0, final(self).writer@, final(self).formatter, r, f),
            },
        decreases *items, items.len(),
    {
        let n = items.len();
        let ghost id = list_kind(items[0])->Ok_0;
        let ghost open = Event::ListTag { type_id: id, len: n as i32, name: label(name) };
        let mut list = list;
        let mut i: usize = 1;
        while i < n
            invariant
                n == items.len(),
                1 <= i <= n,
                list.len == n,
                list.type_id == Some(id),
                id == list_kind(items[0])->Ok_0,
                open == (Event::ListTag { type_id: id, len: n as i32, name: label(name) }),
                emit_elements(*items, i as nat, id, root) is Ok,
                advanced_by(
                    w0,
                    f0,
                    self.writer@,
                    self.formatter,
                    seq![open] + emit_elements(*items, i as nat, id, root)->Ok_0.events,
                ),
                (self.state is Root) == emit_elements(*items, i as nat, id, root)->Ok_0.root,
            decreases n - i,
        {
            let ghost before = emit_elements(*items, i as nat, id, root)->Ok_0;
            let ghost w2 = self.writer@;
            let ghost f2 = self.formatter;
            match list.serialize_element(self, &items[i]) {
                Ok(()) => {},
                Err(e) => {
                    proof {
                        let f = emit_inner(items[i as int], id, before.root)->Err_0;
                        lemma_chain(
                            w0,
                            f0,
                            w2,
                            f2,
                            seq![open] + before.events,
                            self.writer@,
                            self.formatter,
                            f.events,
                        );
                        assert((seq![open] + before.events) + f.events =~= seq![open] + (
                        before.events + f.events));
                        assert(emit_elements(*items, (i + 1) as nat, id, root) is Err);
                        lemma_elements_fail(*items, (i + 1) as nat, n as nat, id, root);
                    }
                    return Err(e);
                },
            }
            proof {
                let last = emit_inner(items[i as int], id, before.root)->Ok_0;
                lemma_chain(
                    w0,
                    f0,
                    w2,
                    f2,
                    seq![open] + before.events,
                    self.writer@,
                    self.formatter,
                    last.events,
                );
                assert((seq![open] + before.events) + last.events =~= seq![open] + (before.events
                    + last.events));
            }
            i += 1;
        }
        let ghost inner = emit_elements(*items, n as nat, id, root)->Ok_0;
        let ghost w3 = self.writer@;
        let ghost f3 = self.formatter;
        list.end(self)?;
        proof {
            lemma_chain(
                w0,
                f0,
                w3,
                f3,
                seq![open] + inner.events,
                self.writer@,
                self.formatter,
                seq![Event::CloseList],
            );
        }
        Ok(())
    }

    /// Writes the header of a list of `len` elements of kind `type_id` under
    /// the pending name, and hands `type_id` back.
    fn serialize_head(&mut self, type_id: u8, len: i32) -> (r: Result<u8>)
        ensures
            final(self).state == old(self).state,
            final(self).next_name == old(self).next_name,
            fits_prefix(old(self).next_name@) ==> r == Ok::<u8, Error>(type_id) && advanced_by(
                old(self).writer@,
                old(self).formatter,
                final(self).writer@,
                final(self).formatter,
                seq![Event::ListTag { type_id, len, name: label(old(self).next_name@) }],
            ),
            !fits_prefix(old(self).next_name@) ==> r == Err::<u8, Error>(
                failure(ErrorCode::InvalidStringLength),
            ) && final(self).writer == old(self).writer && final(self).formatter == old(
                self,
            ).formatter,
    {
        let name_len = prefix_len(self.next_name.as_str())?;
        self.formatter.write_list_tag(
            &mut self.writer,
            type_id,
            len,
            name_len,
            self.next_name.as_str().as_bytes(),
        );
        proof {
            lemma_render_one(
                old(self).formatter,
                Event::ListTag { type_id, len, name: label(old(self).next_name@) },
            );
        }
        Ok(type_id)
    }

    /// Encodes one element of a list whose header announced `type_id`.
    fn serialize_inner(&mut self, item: &Data, type_id: u8) -> (r: Result<()>)
        ensures
            final(self).follows(*old(self), r, emit_inner(*item, type_id, old(self).state is Root)),
        decreases *item, 0nat,
    {
        let ghost w0 = self.writer@;
        let ghost f0 = self.formatter;
        proof {
            lemma_still(w0, f0);
        }
        match item {
            Data::Bool(b) => {
                verify_type(type_id, consts::TYPE_ID_BYTE)?;
                let byte: i8 = if *b {
                    1
                } else {
                    0
                };
                self.formatter.write_byte_inner(&mut self.writer, byte);
                proof {
                    lemma_render_one(f0, Event::ByteInner { value: byte });
                }
                Ok(())
            },
            Data::I8(v) => {
                verify_type(type_id, consts::TYPE_ID_BYTE)?;
                self.formatter.write_byte_inner(&mut self.writer, *v);
                proof {
                    lemma_render_one(f0, Event::ByteInner { value: *v });
                }
                Ok(())
            },
            Data::I16(v) => {
                verify_type(type_id, consts::TYPE_ID_SHORT)?;
                self.formatter.write_short_inner(&mut self.writer, *v);
                proof {
                    lemma_render_one(f0, Event::ShortInner { value: *v });
                }
                Ok(())
            },
            Data::I32(v) => {
                verify_type(type_id, consts::TYPE_ID_INT)?;
                self.formatter.write_int_inner(&mut self.writer, *v);
                proof {
                    lemma_render_one(f0, Event::IntInner { value: *v });
                }
                Ok(())
            },
            Data::I64(v) => {
                verify_type(type_id, consts::TYPE_ID_LONG)?;
                self.formatter.write_long_inner(&mut self.writer, *v);
                proof {
                    lemma_render_one(f0, Event::LongInner { value: *v });
                }
                Ok(())
            },
            Data::F32 { bits, text } => {
                verify_type(type_id, consts::TYPE_ID_FLOAT)?;
                self.formatter.write_float_inner(&mut self.writer, *bits, text.as_str());
                proof {
                    lemma_render_one(f0, Event::FloatInner { bits: *bits, text: text@ });
                }
                Ok(())
            },
            Data::F64 { bits, text } => {
                verify_type(type_id, consts::TYPE_ID_DOUBLE)?;
                self.formatter.write_double_inner(&mut self.writer, *bits, text.as_str());
                proof {
                    lemma_render_one(f0, Event::DoubleInner { bits: *bits, text: text@ });
                }
                Ok(())
            },
            Data::Char(c) => {
                verify_type(type_id, consts::TYPE_ID_STRING)?;
                let buf = char_utf8(*c);
                self.formatter.write_string_inner(
                    &mut self.writer,
                    buf.len() as i16,
                    buf.as_slice(),
                );
                proof {
                    lemma_render_one(f0, Event::StringInner { len: buf.len() as i16, bytes: buf@ });
                }
                Ok(())
            },
            Data::Str(s) => self.inner_string(s.as_str(), type_id),
            Data::UnitVariant(variant) => self.inner_string(variant.as_str(), type_id),
            Data::Just(inner) => self.serialize_inner(inner, type_id),
            Data::NewtypeStruct(_, inner) => self.serialize_inner(inner, type_id),
            Data::Table(entries) => {
                verify_type(type_id, consts::TYPE_ID_COMPOUND)?;
                self.formatter.write_compound_inner(&mut self.writer);
                proof {
                    lemma_step(
                        w0,
                        f0,
                        w0,
                        f0,
                        Seq::empty(),
                        self.writer@,
                        self.formatter,
                        Event::CompoundInner,
                    );
                }
                self.close_entries(entries, Ghost(w0), Ghost(f0), Ghost(Event::CompoundInner))
            },
            Data::Struct(_, fields) => {
                verify_type(type_id, consts::TYPE_ID_COMPOUND)?;
                self.formatter.write_compound_inner(&mut self.writer);
                proof {
                    lemma_step(
                        w0,
                        f0,
                        w0,
                        f0,
                        Seq::empty(),
                        self.writer@,
                        self.formatter,
                        Event::CompoundInner,
                    );
                }
                self.close_fields(fields, Ghost(w0), Ghost(f0), Ghost(Event::CompoundInner))
            },
            _ => Err(unsupported_list_inner_type()),
        }
    }

    /// Encodes a string as an element of a list whose header announced
    /// `type_id`.
    fn inner_string(&mut self, s: &str, type_id: u8) -> (r: Result<()>)
        ensures
            final(self).follows(*old(self), r, inner_string(s@, type_id, old(self).state is Root)),
    {
        proof {
            lemma_still(self.writer@, self.formatter);
        }
        verify_type(type_id, consts::TYPE_ID_STRING)?;
        let string_len = prefix_len(s)?;
        self.formatter.write_string_inner(&mut self.writer, string_len, s.as_bytes());
        proof {
            lemma_render_one(
                old(self).formatter,
                Event::StringInner { len: string_len, bytes: encode_utf8(s@) },
            );
        }
        Ok(())
    }

    /// Encodes `value`, which stands under the array marker, as an array
    /// under the pending name.
    fn serialize_array(&mut self, value: &Data) -> (r: Result<()>)
        ensures
            final(self).follows(
                *old(self),
                r,
                match emit_array(*value, old(self).next_name@) {
                    Ok(events) => Ok(Emitted { events, root: old(self).state is Root }),
                    Err(f) => Err(f),
                },
            ),
        decreases *value,
    {
        let ghost w0 = self.writer@;
        let ghost f0 = self.formatter;
        proof {
            lemma_still(w0, f0);
        }
        match value {
            Data::Sequence { sized, items } => {
                if !*sized {
                    return Err(sequence_size_unknown());
                }
                let n = items.len();
                if n > 2147483647 {
                    return Err(unsupported_type());
                }
                let mut array = SerializeArray { type_id: None, len: n };
                if n == 0 {
                    array.end(self);
                    return Ok(());
                }
                proof {
                    lemma_array_by_elements(*items, old(self).next_name@);
                }
                match array.serialize_element(self, &items[0]) {
                    Ok(()) => {},
                    Err(e) => {
                        return Err(e);
                    },
                }
                let ghost id = array_kind(items[0])->Ok_0;
                let ghost open = array_head(id, n, old(self).next_name@);
                let mut i: usize = 1;
                while i < n
                    invariant
                        n == items.len(),
                        0 < n <= i32::MAX,
                        1 <= i <= n,
                        array.len == n,
                        array.type_id == Some(id),
                        *value == (Data::Sequence { sized: *sized, items: *items }),
                        *sized,
                        array_kind(items[0]) == Ok::<u8, ErrorCode>(id),
                        fits_prefix(old(self).next_name@),
                        array_elements(*items, i as nat, id) is Ok,
                        w0 == old(self).writer@,
                        f0 == old(self).formatter,
                        open == array_head(id, n, old(self).next_name@),
                        advanced_by(
                            w0,
                            f0,
                            self.writer@,
                            self.formatter,
                            seq![open] + array_elements(*items, i as nat, id)->Ok_0,
                        ),
                        self.state == old(self).state,
                    decreases n - i,
                {
                    let ghost before = array_elements(*items, i as nat, id)->Ok_0;
                    let ghost w2 = self.writer@;
                    let ghost f2 = self.formatter;
                    match array.serialize_element(self, &items[i]) {
                        Ok(()) => {},
                        Err(e) => {
                            proof {
                                lemma_chain(
                                    w0,
                                    f0,
                                    w2,
                                    f2,
                                    seq![open] + before,
                                    self.writer@,
                                    self.formatter,
                                    Seq::empty(),
                                );
                                assert((seq![open] + before) + Seq::<Event>::empty() =~= seq![open]
                                    + before);
                                assert(array_elements(*items, (i + 1) as nat, id) is Err);
                                lemma_array_elements_fail(*items, (i + 1) as nat, n as nat, id);
                            }
                            return Err(e);
                        },
                    }
                    proof {
                        let e = array_element(items[i as int], id)->Ok_0;
                        lemma_chain(
                            w0,
                            f0,
                            w2,
                            f2,
                            seq![open] + before,
                            self.writer@,
                            self.formatter,
                            seq![e],
                        );
                        assert((seq![open] + before) + seq![e] =~= seq![open] + before.push(e));
                    }
                    i += 1;
                }
                let ghost payloads = array_elements(*items, n as nat, id)->Ok_0;
                let ghost w3 = self.writer@;
                let ghost f3 = self.formatter;
                array.end(self);
                proof {
                    lemma_chain(
                        w0,
                        f0,
                        w3,
                        f3,
                        seq![open] + payloads,
                        self.writer@,
                        self.formatter,
                        seq![Event::CloseArray],
                    );
                }
                Ok(())
            },
            Data::NewtypeStruct(nominal, inner) => {
                if is_array_token(nominal) {
                    self.serialize_array(inner)
                } else {
                    Err(unsupported_array_type())
                }
            },
            _ => Err(unsupported_array_type()),
        }
    }

    /// Writes the header of an array of `len` elements and of kind `type_id`
    /// under the pending name, and hands `type_id` back.
    fn serialize_array_head(&mut self, type_id: u8, len: i32) -> (r: Result<u8>)
        requires
            is_array_id(type_id),
        ensures
            final(self).state == old(self).state,
            final(self).next_name == old(self).next_name,
            fits_prefix(old(self).next_name@) ==> r == Ok::<u8, Error>(type_id) && advanced_by(
                old(self).writer@,
                old(self).formatter,
                final(self).writer@,
                final(self).formatter,
                seq![Event::ArrayHead { type_id, len, name: label(old(self).next_name@) }],
            ),
            !fits_prefix(old(self).next_name@) ==> r == Err::<u8, Error>(
                failure(ErrorCode::InvalidStringLength),
            ) && final(self).writer == old(self).writer && final(self).formatter == old(
                self,
            ).formatter,
    {
        let name_len = prefix_len(self.next_name.as_str())?;
        self.formatter.write_array_head(
            &mut self.writer,
            type_id,
            len,
            name_len,
            self.next_name.as_str().as_bytes(),
        );
        proof {
            lemma_render_one(
                old(self).formatter,
                Event::ArrayHead { type_id, len, name: label(old(self).next_name@) },
            );
        }
        Ok(type_id)
    }

    /// Encodes one element of an array of kind `type_id`.
    fn serialize_array_inner(&mut self, item: &Data, type_id: u8) -> (r: Result<()>)
        ensures
            final(self).state == old(self).state,
            match array_element(*item, type_id) {
                Ok(e) => r is Ok && advanced_by(
                    old(self).writer@,
                    old(self).formatter,
                    final(self).writer@,
                    final(self).formatter,
                    seq![e],
                ),
                Err(code) => r == Err::<(), Error>(failure(code)) && final(self).writer == old(
                    self,
                ).writer && final(self).formatter == old(self).formatter,
            },
        decreases *item,
    {
        let ghost f0 = self.formatter;
        match item {
            Data::I8(v) => {
                verify_array_type(type_id, consts::TYPE_ID_BYTE_ARRAY)?;
                self.formatter.write_byte_inner(&mut self.writer, *v);
                proof {
                    lemma_render_one(f0, Event::ByteInner { value: *v });
                }
                Ok(())
            },
            Data::I32(v) => {
                verify_array_type(type_id, consts::TYPE_ID_INT_ARRAY)?;
                self.formatter.write_int_inner(&mut self.writer, *v);
                proof {
                    lemma_render_one(f0, Event::IntInner { value: *v });
                }
                Ok(())
            },
            Data::I64(v) => {
                verify_array_type(type_id, consts::TYPE_ID_LONG_ARRAY)?;
                self.formatter.write_long_inner(&mut self.writer, *v);
                proof {
                    lemma_render_one(f0, Event::LongInner { value: *v });
                }
                Ok(())
            },
            Data::NewtypeStruct(_, inner) => self.serialize_array_inner(inner, type_id),
            _ => Err(unsupported_array_inner_type()),
        }
    }
}

/// The writing of a compound entry by entry. A compound needs no state of
/// its own: each entry is a tag with its own head, and the end is a tag
/// without name and payload.
pub struct SerializeCompound;

impl SerializeCompound {
    /// Takes the name of the next entry from a map key.
    pub fn serialize_key<F: Formatter>(&mut self, ser: &mut Serializer<F>, key: &Data) -> (r:
        Result<()>)
        ensures
            final(ser).writer == old(ser).writer,
            final(ser).formatter == old(ser).formatter,
            final(ser).state == old(ser).state,
            match key_name(*key) {
                Ok(name) => r is Ok && final(ser).next_name@ == name,
                Err(code) => r == Err::<(), Error>(failure(code)) && final(ser).next_name
                    == old(ser).next_name,
            },
    {
        ser.serialize_key(key)
    }

    /// Writes the value of an entry under the name that its key gave.
    pub fn serialize_value<F: Formatter>(&mut self, ser: &mut Serializer<F>, value: &Data) -> (r:
        Result<()>)
        ensures
            final(ser).follows(
                *old(ser),
                r,
                emit(*value, old(ser).next_name@, old(ser).state is Root),
            ),
        decreases *value, 1nat,
    {
        ser.serialize(value)
    }

    /// Writes a field of a struct under the field's name.
    pub fn serialize_field<F: Formatter>(
        &mut self,
        ser: &mut Serializer<F>,
        key: &str,
        value: &Data,
    ) -> (r: Result<()>)
        ensures
            final(ser).follows(*old(ser), r, emit(*value, key@, old(ser).state is Root)),
        decreases *value, 1nat,
    {
        ser.next_name = String::from_str(key);
        ser.serialize(value)
    }

    /// Ends the compound.
    pub fn end<F: Formatter>(self, ser: &mut Serializer<F>)
        ensures
            advanced_by(
                old(ser).writer@,
                old(ser).formatter,
                final(ser).writer@,
                final(ser).formatter,
                seq![Event::EndTag],
            ),
            final(ser).state == old(ser).state,
            final(ser).next_name == old(ser).next_name,
    {
        ser.formatter.write_end_tag(&mut ser.writer);
        proof {
            lemma_render_one(old(ser).formatter, Event::EndTag);
        }
    }
}

/// The state of writing an array element by element: the kind of the array,
/// once the first element has shown it, and the number of elements that the
/// header is to declare.
pub struct SerializeArray {
    pub type_id: Option<u8>,
    pub len: usize,
}

impl SerializeArray {
    /// Writes the next element. The first element settles the kind of the
    /// array: a byte makes a byte array, an int an int array, a long a long
    /// array, and before its payload the header is written, which bears that
    /// kind and declares the number of elements. Every later element has to
    /// be of the same kind. An element that is refused leaves no byte.
    pub fn serialize_element<F: Formatter>(&mut self, ser: &mut Serializer<F>, value: &Data) -> (r:
        Result<()>)
        ensures
            final(ser).state == old(ser).state,
            final(self).len == old(self).len,
            match emit_array_element(
                old(self).type_id,
                old(self).len,
                *value,
                old(ser).next_name@,
            ) {
                Ok(events) => {
                    &&& r is Ok
                    &&& advanced_by(
                        old(ser).writer@,
                        old(ser).formatter,
                        final(ser).writer@,
                        final(ser).formatter,
                        events,
                    )
                    &&& final(self).type_id == Some(
                        match old(self).type_id {
                            Some(id) => id,
                            None => array_kind(*value)->Ok_0,
                        },
                    )
                },
                Err(f) => failed_by(
                    old(ser).writer@,
                    old(ser).formatter,
                    final(ser).writer@,
                    final(ser).formatter,
                    r,
                    f,
                ),
            },
    {
        let ghost w0 = ser.writer@;
        let ghost f0 = ser.formatter;
        proof {
            lemma_still(w0, f0);
        }
        if let Some(type_id) = self.type_id {
            ser.serialize_array_inner(value, type_id)
        } else {
            if self.len > 2147483647 {
                return Err(unsupported_type());
            }
            let type_id = array_first_kind(value)?;
            ser.serialize_array_head(type_id, self.len as i32)?;
            self.type_id = Some(type_id);
            let ghost w1 = ser.writer@;
            let ghost f1 = ser.formatter;
            let ghost open = array_head(type_id, self.len, old(ser).next_name@);
            match ser.serialize_array_inner(value, type_id) {
                Ok(()) => {},
                Err(e) => {
                    return Err(e);
                },
            }
            proof {
                let e = array_element(*value, type_id)->Ok_0;
                lemma_chain(w0, f0, w1, f1, seq![open], ser.writer@, ser.formatter, seq![e]);
                assert(seq![open] + seq![e] =~= seq![open, e]);
            }
            Ok(())
        }
    }

    /// Ends the array: the close, or nothing where no element was written.
    pub fn end<F: Formatter>(self, ser: &mut Serializer<F>)
        ensures
            advanced_by(
                old(ser).writer@,
                old(ser).formatter,
                final(ser).writer@,
                final(ser).formatter,
                emit_array_end(self.type_id),
            ),
            final(ser).state == old(ser).state,
            final(ser).next_name == old(ser).next_name,
    {
        proof {
            lemma_still(ser.writer@, ser.formatter);
        }
        if self.type_id.is_some() {
            ser.formatter.close_array(&mut ser.writer);
            proof {
                lemma_render_one(old(ser).formatter, Event::CloseArray);
            }
        }
    }
}

/// The state of writing a list element by element: the kind of the
/// elements, once the first has shown it, and the number of elements that the
/// header is to declare.
pub struct SerializeList {
    pub type_id: Option<u8>,
    pub len: usize,
}

impl SerializeList {
    /// Writes the next element. The first element settles the kind of the
    /// list: before its payload the header is written, which declares that
    /// kind and the number of elements. Every later element has to be of the
    /// same kind.
    pub fn serialize_element<F: Formatter>(&mut self, ser: &mut Serializer<F>, value: &Data) -> (r:
        Result<()>)
        ensures
            final(ser).follows(
                *old(ser),
                r,
                emit_element(
                    old(self).type_id,
                    old(self).len,
                    *value,
                    old(ser).next_name@,
                    old(ser).state is Root,
                ),
            ),
            final(self).len == old(self).len,
            r is Ok ==> final(self).type_id == Some(
                match old(self).type_id {
                    Some(id) => id,
                    None => list_kind(*value)->Ok_0,
                },
            ),
        decreases *value, 1nat,
    {
        if let Some(type_id) = self.type_id {
            ser.serialize_inner(value, type_id)
        } else {
            let ghost w0 = ser.writer@;
            let ghost f0 = ser.formatter;
            proof {
                lemma_still(w0, f0);
            }
            if self.len > 2147483647 {
                return Err(unsupported_type());
            }
            let type_id = first_kind(value)?;
            ser.serialize_head(type_id, self.len as i32)?;
            self.type_id = Some(type_id);
            let ghost w1 = ser.writer@;
            let ghost f1 = ser.formatter;
            let ghost open = Event::ListTag {
                type_id,
                len: self.len as i32,
                name: label(old(ser).next_name@),
            };
            match ser.serialize_inner(value, type_id) {
                Ok(()) => {},
                Err(e) => {
                    proof {
                        let f = emit_inner(*value, type_id, old(ser).state is Root)->Err_0;
                        lemma_chain(
                            w0,
                            f0,
                            w1,
                            f1,
                            seq![open],
                            ser.writer@,
                            ser.formatter,
                            f.events,
                        );
                    }
                    return Err(e);
                },
            }
            proof {
                let inner = emit_inner(*value, type_id, old(ser).state is Root)->Ok_0;
                lemma_chain(w0, f0, w1, f1, seq![open], ser.writer@, ser.formatter, inner.events);
            }
            Ok(())
        }
    }

    /// Ends the list.
    pub fn end<F: Formatter>(self, ser: &mut Serializer<F>) -> (r: Result<()>)
        ensures
            final(ser).follows(
                *old(ser),
                r,
                emit_end(self.type_id, old(ser).next_name@, old(ser).state is Root),
            ),
    {
        let ghost w0 = ser.writer@;
        let ghost f0 = ser.formatter;
        proof {
            lemma_still(w0, f0);
        }
        if self.type_id.is_none() {
            ser.serialize_head(consts::TYPE_ID_END, 0)?;
        }
        let ghost w1 = ser.writer@;
        let ghost f1 = ser.formatter;
        ser.formatter.close_list(&mut ser.writer);
        proof {
            let name = label(old(ser).next_name@);
            let open = Event::ListTag { type_id: consts::TYPE_ID_END, len: 0, name };
            if self.type_id is None {
                lemma_step(
                    w0,
                    f0,
                    w1,
                    f1,
                    seq![open],
                    ser.writer@,
                    ser.formatter,
                    Event::CloseList,
                );
                assert(seq![open].push(Event::CloseList) =~= seq![open, Event::CloseList]);
            } else {
                lemma_render_one(f0, Event::CloseList);
            }
        }
        Ok(())
    }
}

/// The element id that a list announces when `first` is its first element.
fn first_kind(first: &Data) -> (r: Result<u8>)
    ensures
        match list_kind(*first) {
            Ok(id) => r == Ok::<u8, Error>(id),
            Err(code) => r == Err::<u8, Error>(failure(code)),
        },
    decreases *first,
{
    match first {
        Data::Bool(_) | Data::I8(_) => Ok(consts::TYPE_ID_BYTE),
        Data::I16(_) => Ok(consts::TYPE_ID_SHORT),
        Data::I32(_) => Ok(consts::TYPE_ID_INT),
        Data::I64(_) => Ok(consts::TYPE_ID_LONG),
        Data::F32 { .. } => Ok(consts::TYPE_ID_FLOAT),
        Data::F64 { .. } => Ok(consts::TYPE_ID_DOUBLE),
        Data::Char(_) | Data::Str(_) | Data::UnitVariant(_) => Ok(consts::TYPE_ID_STRING),
        Data::Table(_) | Data::Struct(_, _) => Ok(consts::TYPE_ID_COMPOUND),
        Data::Just(inner) => first_kind(inner),
        Data::NewtypeStruct(_, inner) => first_kind(inner),
        _ => Err(unsupported_list_inner_type()),
    }
}

/// The id of the array that begins with `first`.
fn array_first_kind(first: &Data) -> (r: Result<u8>)
    ensures
        match array_kind(*first) {
            Ok(id) => r == Ok::<u8, Error>(id) && is_array_id(id),
            Err(code) => r == Err::<u8, Error>(failure(code)),
        },
    decreases *first,
{
    match first {
        Data::I8(_) => Ok(consts::TYPE_ID_BYTE_ARRAY),
        Data::I32(_) => Ok(consts::TYPE_ID_INT_ARRAY),
        Data::I64(_) => Ok(consts::TYPE_ID_LONG_ARRAY),
        Data::NewtypeStruct(_, inner) => array_first_kind(inner),
        _ => Err(unsupported_array_inner_type()),
    }
}

/// Fails where an element of kind `type_id` stands in a list whose header
/// announced `expected`.
fn verify_type(expected: u8, type_id: u8) -> (r: Result<()>)
    ensures
        type_id == expected ==> r is Ok,
        type_id != expected ==> r == Err::<(), Error>(failure(ErrorCode::ListDifferentType)),
{
    if type_id != expected {
        return Err(list_different_type());
    }
    Ok(())
}

/// Fails where an element that belongs into an array of kind `type_id`
/// stands in an array of kind `expected`.
fn verify_array_type(expected: u8, type_id: u8) -> (r: Result<()>)
    ensures
        type_id == expected ==> r is Ok,
        type_id != expected ==> r == Err::<(), Error>(failure(ErrorCode::ArrayDifferentType)),
{
    if type_id != expected {
        return Err(array_different_type());
    }
    Ok(())
}

/// Encodes `root` and appends the bytes to `writer`. After a failure
/// `writer` holds what it held, and behind it the bytes of the tags that were
/// written before the failure was found.
pub fn to_writer(writer: &mut Vec<u8>, root: Root<'_, '_>) -> (r: Result<()>)
    ensures
        match emit(*root.value, root.root_name@, true) {
            Ok(em) => r is Ok && final(writer)@ == old(writer)@ + binary_all(em.events),
            Err(f) => r == Err::<(), Error>(failure(f.code)) && final(writer)@ == old(writer)@
                + binary_all(f.events),
        },
{
    let mut sink: Vec<u8> = Vec::new();
    core::mem::swap(writer, &mut sink);
    let mut ser = Serializer::binary(sink, root.root_name);
    let r = ser.serialize(root.value);
    *writer = ser.into_inner();
    r
}

/// Encodes `root` into a byte vector.
pub fn to_vec(root: Root<'_, '_>) -> (r: Result<Vec<u8>>)
    ensures
        match encoding(*root.value, root.root_name@) {
            Ok(bytes) => r is Ok && r->Ok_0@ == bytes,
            Err(code) => r is Err && r->Err_0 == failure(code),
        },
{
    let mut ser = Serializer::binary(Vec::with_capacity(128), root.root_name);
    ser.serialize(root.value)?;
    let out = ser.into_inner();
    assert(out@ =~= Seq::<u8>::empty() + out@);
    Ok(out)
}

/// Encodes `root` as a transcript.
pub fn to_string_transcript(root: Root<'_, '_>) -> (r: Result<String>)
    ensures
        match transcription(*root.value, root.root_name@) {
            Ok(text) => r is Ok && r->Ok_0@ == text,
            Err(code) => r is Err && r->Err_0 == failure(code),
        },
{
    let mut ser = Serializer::transcript(Vec::with_capacity(128), root.root_name);
    let ghost f0 = ser.formatter;
    ser.serialize(root.value)?;
    let out = ser.into_inner();
    proof {
        let events = emit(*root.value, root.root_name@, true)->Ok_0.events;
        lemma_render_transcript(f0, events);
        lemma_transcript_text(events, "  "@, 0);
        let text = transcript_text(events, "  "@, 0);
        assert(out@ =~= Seq::<u8>::empty() + out@);
        assert(out@ == encode_utf8(text));
        vstd::utf8::encode_utf8_valid_utf8(text);
        vstd::utf8::encode_utf8_decode_utf8(text);
    }
    Ok(utf8_lossy(out.as_slice()))
}

/// Appends the compressed bytes `packed` to `writer`, or reports the
/// compressor's failure.
pub fn deliver(writer: &mut Vec<u8>, packed: Option<Vec<u8>>) -> (r: Result<()>)
    ensures
        match packed {
            Some(bytes) => r is Ok && final(writer)@ == old(writer)@ + bytes@,
            None => r == Err::<(), Error>(
                Error { code: ErrorCode::Io(IoErrorKind::Other), index: 0 },
            ) && final(writer)@ == old(writer)@,
        },
{
    match packed {
        Some(bytes) => {
            put_bytes(writer, bytes.as_slice());
            Ok(())
        },
        None => Err(Error::io(IoErrorKind::Other)),
    }
}

/// Encodes `root`, compresses the bytes as a gzip stream, and appends the
/// stream to `writer`. Where encoding fails, or the compressor does,
/// `writer` is left as it was.
pub fn to_gzip_writer(writer: &mut Vec<u8>, root: Root<'_, '_>, compression: Compression) -> (r:
    Result<()>)
    ensures
        match encoding(*root.value, root.root_name@) {
            Ok(bytes) => match gzip_image(bytes, compression.effective()) {
                Some(stream) => r is Ok && final(writer)@ == old(writer)@ + stream,
                None => r == Err::<(), Error>(
                    Error { code: ErrorCode::Io(IoErrorKind::Other), index: 0 },
                ) && final(writer)@ == old(writer)@,
            },
            Err(code) => r == Err::<(), Error>(failure(code)) && final(writer)@ == old(writer)@,
        },
{
    let plain = to_vec(root)?;
    let packed = gzip(plain.as_slice(), compression.clamped());
    deliver(writer, packed)
}

/// Encodes `root`, compresses the bytes as a zlib stream, and appends the
/// stream to `writer`. Where encoding fails, or the compressor does,
/// `writer` is left as it was.
pub fn to_zlib_writer(writer: &mut Vec<u8>, root: Root<'_, '_>, compression: Compression) -> (r:
    Result<()>)
    ensures
        match encoding(*root.value, root.root_name@) {
            Ok(bytes) => match zlib_image(bytes, compression.effective()) {
                Some(stream) => r is Ok && final(writer)@ == old(writer)@ + stream,
                None => r == Err::<(), Error>(
                    Error { code: ErrorCode::Io(IoErrorKind::Other), index: 0 },
                ) && final(writer)@ == old(writer)@,
            },
            Err(code) => r == Err::<(), Error>(failure(code)) && final(writer)@ == old(writer)@,
        },
{
    let plain = to_vec(root)?;
    let packed = zlib(plain.as_slice(), compression.clamped());
    deliver(writer, packed)
}

} // verus!
