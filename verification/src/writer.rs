//! The encoder: appends fields to a buffer, one schema position at a time.

use crate::error::MessageError;
use crate::model::{write_layout, write_step, Accessor, Field, Layout};
use crate::schema::Chunks;
use crate::wire::{push_be, to_unsigned};
use vstd::prelude::*;

verus! {

/// An encoder as the contracts see it.
pub struct WriterModel {
    /// The bytes written so far.
    pub bytes: Seq<u8>,
    /// The schema position of the next write.
    pub cursor: nat,
    pub schema: Seq<Chunks>,
    /// Whether writes go unchecked, past the schema.
    pub unchecked: bool,
}

impl WriterModel {
    /// A checked encoder at the start of `schema`, with nothing written.
    pub open spec fn start(schema: Seq<Chunks>) -> WriterModel {
        WriterModel { bytes: Seq::empty(), cursor: 0, schema, unchecked: false }
    }

    /// The chunk at the cursor, if the schema has one there.
    pub open spec fn slot(self) -> Option<Chunks> {
        if self.cursor < self.schema.len() {
            Some(self.schema[self.cursor as int])
        } else {
            None
        }
    }

    /// The encoder after writing `field`, or why the write is refused.
    pub open spec fn write(self, field: Field) -> Result<WriterModel, MessageError> {
        match write_step(field, self.unchecked, self.slot()) {
            Err(e) => Err(e),
            Ok(w) => Ok(
                WriterModel { bytes: self.bytes + w.bytes, cursor: self.cursor + w.slots, ..self },
            ),
        }
    }

    /// The next write is not bound to fail: the encoder is unchecked, or the
    /// schema has a chunk at the cursor that is no wildcard.
    pub open spec fn open_for_writing(self) -> bool {
        self.unchecked || (self.slot() matches Some(chunk) && !chunk.is_wildcard())
    }

    /// Every schema position has been written.
    pub open spec fn complete(self) -> bool {
        self.cursor == self.schema.len()
    }

    /// What `finalize` hands out.
    pub open spec fn finalize(self) -> Result<Seq<u8>, MessageError> {
        if self.complete() {
            Ok(self.bytes)
        } else {
            Err(MessageError::IncompleteSchema)
        }
    }
}

/// Writes `fields` in order, stopping at the first refusal.
pub open spec fn write_all(w: WriterModel, fields: Seq<Field>) -> Result<WriterModel, MessageError>
    decreases fields.len(),
{
    if fields.len() == 0 {
        Ok(w)
    } else {
        match w.write(fields[0]) {
            Err(e) => Err(e),
            Ok(next) => write_all(next, fields.drop_first()),
        }
    }
}

/// What a checked writer on `schema` hands out after `fields` were written in
/// order and the writer was finalized.
pub open spec fn encode(schema: Seq<Chunks>, fields: Seq<Field>) -> Result<Seq<u8>, MessageError> {
    match write_all(WriterModel::start(schema), fields) {
        Err(e) => Err(e),
        Ok(w) => w.finalize(),
    }
}

/// Appends fields to a byte buffer, checking each against its schema.
///
/// A checked writer accepts a field only where the schema has a chunk of that
/// kind at the cursor, and then moves the cursor on by one. An unchecked writer
/// consults no schema and leaves the cursor alone. A refused write changes
/// nothing.
#[derive(Debug)]
pub struct ConnectionWriter {
    pub current_chunk: usize,
    pub msg: Vec<u8>,
    pub protocol: Vec<Chunks>,
    pub unchecked: bool,
}

impl View for ConnectionWriter {
    type V = WriterModel;

    open spec fn view(&self) -> WriterModel {
        WriterModel {
            bytes: self.msg@,
            cursor: self.current_chunk as nat,
            schema: self.protocol@,
            unchecked: self.unchecked,
        }
    }
}

impl ConnectionWriter {
    /// A checked writer at the start of `protocol`, with nothing written.
    pub fn new(protocol: Vec<Chunks>) -> (w: ConnectionWriter)
        ensures
            w@ == WriterModel::start(protocol@),
    {
        ConnectionWriter { current_chunk: 0, msg: Vec::new(), protocol, unchecked: false }
    }

    /// The same writer, unchecked from now on.
    pub fn unchecked(self) -> (w: ConnectionWriter)
        ensures
            w@ == (WriterModel { unchecked: true, ..self@ }),
    {
        ConnectionWriter {
            current_chunk: self.current_chunk,
            msg: self.msg,
            protocol: self.protocol,
            unchecked: true,
        }
    }

    /// The layout for the next write with `acc`, if the schema allows one.
    fn layout_for(&self, acc: Accessor) -> (layout: Option<Layout>)
        ensures
            layout == write_layout(acc, self.unchecked, self@.slot()),
    {
        if self.unchecked {
            Some(acc.natural())
        } else if self.current_chunk < self.protocol.len() {
            acc.exact(self.protocol[self.current_chunk])
        } else {
            None
        }
    }

    /// Moves the schema cursor past the chunk just written.
    fn advance(&mut self)
        requires
            old(self)@.open_for_writing(),
        ensures
            final(self)@ == (WriterModel {
                cursor: old(self)@.cursor + crate::model::slots_taken(
                    old(self).unchecked,
                    old(self)@.slot(),
                ),
                ..old(self)@
            }),
    {
        if !self.unchecked {
            let len = self.protocol.len();
            assert(self.current_chunk < len);
            self.current_chunk = self.current_chunk + 1;
        }
    }

    /// Appends a number in `width` big-endian bytes.
    fn put_number(&mut self, pattern: u64, width: usize)
        requires
            width <= 8,
            old(self)@.open_for_writing(),
        ensures
            final(self)@ == (WriterModel {
                bytes: old(self)@.bytes + crate::wire::be_bytes(pattern as nat, width as nat),
                cursor: old(self)@.cursor + crate::model::slots_taken(
                    old(self).unchecked,
                    old(self)@.slot(),
                ),
                ..old(self)@
            }),
    {
        push_be(&mut self.msg, pattern, width);
        self.advance();
    }

    /// Appends a byte string behind its 8-byte length.
    fn put_prefixed(&mut self, payload: &[u8])
        requires
            old(self)@.open_for_writing(),
        ensures
            final(self)@ == (WriterModel {
                bytes: old(self)@.bytes + crate::model::prefixed(payload@),
                cursor: old(self)@.cursor + crate::model::slots_taken(
                    old(self).unchecked,
                    old(self)@.slot(),
                ),
                ..old(self)@
            }),
    {
        let ghost before = self.msg@;
        push_be(&mut self.msg, payload.len() as u64, 8);
        self.msg.extend_from_slice(payload);
        assert(self.msg@ =~= before + crate::model::prefixed(payload@));
        self.advance();
    }

    /// Writes a signed integer, cut to the width that the schema declares: all
    /// eight bytes where the writer is unchecked.
    pub fn write_int(&mut self, value: i64) -> (r: Result<(), MessageError>)
        ensures
            match old(self)@.write(Field::Int(value)) {
                Ok(next) => r is Ok && final(self)@ == next,
                Err(e) => r == Err::<(), MessageError>(e) && final(self)@ == old(self)@,
            },
    {
        match self.layout_for(Accessor::Int) {
            Some(Layout::Fixed(width)) => {
                self.put_number(to_unsigned(value), width);
                Ok(())
            },
            _ => Err(MessageError::SchemaMismatch),
        }
    }

    /// Writes a double, given as its 64-bit pattern, in eight bytes.
    pub fn write_float_bits(&mut self, bits: u64) -> (r: Result<(), MessageError>)
        ensures
            match old(self)@.write(Field::Float(bits)) {
                Ok(next) => r is Ok && final(self)@ == next,
                Err(e) => r == Err::<(), MessageError>(e) && final(self)@ == old(self)@,
            },
    {
        match self.layout_for(Accessor::Float) {
            Some(Layout::Fixed(width)) => {
                self.put_number(bits, width);
                Ok(())
            },
            _ => Err(MessageError::SchemaMismatch),
        }
    }

    /// Writes an unsigned integer, cut to the width that the schema declares: all
    /// eight bytes where the writer is unchecked.
    pub fn write_uint(&mut self, value: u64) -> (r: Result<(), MessageError>)
        ensures
            match old(self)@.write(Field::Uint(value)) {
                Ok(next) => r is Ok && final(self)@ == next,
                Err(e) => r == Err::<(), MessageError>(e) && final(self)@ == old(self)@,
            },
    {
        match self.layout_for(Accessor::Uint) {
            Some(Layout::Fixed(width)) => {
                self.put_number(value, width);
                Ok(())
            },
            _ => Err(MessageError::SchemaMismatch),
        }
    }

    /// Writes text as UTF-8 behind its length in bytes.
    pub fn write_string(&mut self, value: &str) -> (r: Result<(), MessageError>)
        ensures
            match old(self)@.write(Field::Text(value@)) {
                Ok(next) => r is Ok && final(self)@ == next,
                Err(e) => r == Err::<(), MessageError>(e) && final(self)@ == old(self)@,
            },
    {
        match self.layout_for(Accessor::Text) {
            Some(Layout::Prefixed) => {
                self.put_prefixed(value.as_bytes());
                Ok(())
            },
            _ => Err(MessageError::SchemaMismatch),
        }
    }

    /// Writes raw bytes behind their count.
    pub fn write_binary(&mut self, value: &[u8]) -> (r: Result<(), MessageError>)
        ensures
            match old(self)@.write(Field::Binary(value@)) {
                Ok(next) => r is Ok && final(self)@ == next,
                Err(e) => r == Err::<(), MessageError>(e) && final(self)@ == old(self)@,
            },
    {
        match self.layout_for(Accessor::Binary) {
            Some(Layout::Prefixed) => {
                self.put_prefixed(value);
                Ok(())
            },
            _ => Err(MessageError::SchemaMismatch),
        }
    }

    /// Writes a boolean as one byte, `1` or `0`.
    pub fn write_bool(&mut self, value: bool) -> (r: Result<(), MessageError>)
        ensures
            match old(self)@.write(Field::Bool(value)) {
                Ok(next) => r is Ok && final(self)@ == next,
                Err(e) => r == Err::<(), MessageError>(e) && final(self)@ == old(self)@,
            },
    {
        match self.layout_for(Accessor::Bool) {
            Some(Layout::Fixed(_)) => {
                let ghost before = self.msg@;
                self.msg.push(if value { 1 } else { 0 });
                assert(self.msg@ =~= before + seq![if value { 1u8 } else { 0u8 }]);
                self.advance();
                Ok(())
            },
            _ => Err(MessageError::SchemaMismatch),
        }
    }

    /// The bytes written, provided that every schema position was written.
    pub fn finalize(&self) -> (r: Result<Vec<u8>, MessageError>)
        ensures
            match self@.finalize() {
                Ok(bytes) => r is Ok && r->Ok_0@ == bytes,
                Err(e) => r == Err::<Vec<u8>, MessageError>(e),
            },
    {
        if self.current_chunk != self.protocol.len() {
            return Err(MessageError::IncompleteSchema);
        }
        Ok(self.msg.clone())
    }

    /// The bytes written, whatever the schema cursor.
    pub fn finalize_unchecked(&self) -> (bytes: Vec<u8>)
        ensures
            bytes@ == self@.bytes,
    {
        self.msg.clone()
    }
}

} // verus!
