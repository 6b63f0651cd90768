//! The decoder: takes fields out of a byte slice, one schema position at a time.

use crate::error::MessageError;
use crate::model::{
    advance_step, payload_step, read_layout, read_step, skip_layout, skip_step, slots_taken,
    Accessor, Field, Layout, Taken,
};
use crate::schema::Chunks;
use crate::text::decode_text;
use crate::wire::{
    lemma_be_value_bound, lemma_pow256_monotonic, lemma_pow256_values, read_be, to_signed,
};
use vstd::prelude::*;
use vstd::slice::{slice_subrange, slice_to_vec};

verus! {

/// Where a decoder stands in the life of one decode.
#[derive(Debug, Clone, Copy, PartialEq, Eq, Structural)]
pub enum ReaderState {
    /// Nothing has been asked of it since it was made or reset.
    Fresh,
    /// At least one step has succeeded and none has failed.
    Reading,
    /// `finalize` has succeeded.
    Complete,
    /// A step has failed, with this error.
    Aborted(MessageError),
}

/// A decoder as the contracts see it.
pub struct ReaderModel {
    /// The whole input.
    pub bytes: Seq<u8>,
    /// How many bytes have been taken.
    pub byte: nat,
    /// The schema position of the next read.
    pub chunk: nat,
    pub schema: Seq<Chunks>,
    /// Whether reads go unchecked, past the schema.
    pub unchecked: bool,
    pub state: ReaderState,
}

impl ReaderModel {
    /// A fresh, checked decoder at the start of `bytes` and of `schema`.
    pub open spec fn start(schema: Seq<Chunks>, bytes: Seq<u8>) -> ReaderModel {
        ReaderModel {
            bytes,
            byte: 0,
            chunk: 0,
            schema,
            unchecked: false,
            state: ReaderState::Fresh,
        }
    }

    /// The decoder is in use: neither aborted nor complete.
    pub open spec fn active(self) -> bool {
        self.state is Fresh || self.state is Reading
    }

    /// The chunk at the schema cursor, if the schema has one there.
    pub open spec fn slot(self) -> Option<Chunks> {
        if self.chunk < self.schema.len() {
            Some(self.schema[self.chunk as int])
        } else {
            None
        }
    }

    /// The bytes not yet taken.
    pub open spec fn remaining(self) -> Seq<u8> {
        if self.byte <= self.bytes.len() {
            self.bytes.skip(self.byte as int)
        } else {
            Seq::empty()
        }
    }

    /// What a step finds, given what it would find on a decoder in use: a decoder
    /// that is aborted repeats its error, and one that is complete has no chunk
    /// left to offer.
    pub open spec fn gated<T>(self, found: Result<T, MessageError>) -> Result<T, MessageError> {
        match self.state {
            ReaderState::Aborted(e) => Err(e),
            ReaderState::Complete => Err(MessageError::SchemaMismatch),
            _ => found,
        }
    }

    /// What a read with `acc` finds.
    pub open spec fn find(self, acc: Accessor) -> Result<Taken, MessageError> {
        self.gated(read_step(acc, self.unchecked, self.slot(), self.remaining()))
    }

    /// What a skip finds.
    pub open spec fn find_skip(self) -> Result<Taken, MessageError> {
        self.gated(skip_step(self.slot(), self.remaining()))
    }

    /// What an advance finds: on a decoder in use one schema position and no
    /// bytes, whatever the schema holds there.
    pub open spec fn find_advance(self) -> Result<Taken, MessageError> {
        self.gated(Ok(advance_step()))
    }

    /// Every schema position has been read.
    pub open spec fn complete(self) -> bool {
        self.chunk == self.schema.len()
    }

    /// What `finalize` finds. It may be repeated on a complete decoder.
    pub open spec fn find_end(self) -> Result<(), MessageError> {
        match self.state {
            ReaderState::Aborted(e) => Err(e),
            _ => if self.complete() {
                Ok(())
            } else {
                Err(MessageError::IncompleteSchema)
            },
        }
    }

    /// The decoder after a step with this outcome. Success moves both cursors
    /// forward by what was taken; failure moves nothing and aborts.
    pub open spec fn after(self, outcome: Result<Taken, MessageError>) -> ReaderModel {
        match outcome {
            Ok(taken) => ReaderModel {
                byte: self.byte + taken.bytes,
                chunk: self.chunk + taken.slots,
                state: ReaderState::Reading,
                ..self
            },
            Err(e) => ReaderModel { state: ReaderState::Aborted(e), ..self },
        }
    }

    /// The decoder after `finalize` with this outcome.
    pub open spec fn after_end(self, outcome: Result<(), MessageError>) -> ReaderModel {
        match outcome {
            Ok(_) => ReaderModel { state: ReaderState::Complete, ..self },
            Err(e) => ReaderModel { state: ReaderState::Aborted(e), ..self },
        }
    }

    /// The decoder rewound to the start of the same input.
    pub open spec fn rewound(self) -> ReaderModel {
        ReaderModel { byte: 0, chunk: 0, state: ReaderState::Fresh, ..self }
    }
}

/// Reads with `accs` in order, stopping at the first failure: the decoder after
/// the last read and the values that were read.
pub open spec fn read_all(r: ReaderModel, accs: Seq<Accessor>) -> Result<
    (ReaderModel, Seq<Field>),
    MessageError,
>
    decreases accs.len(),
{
    if accs.len() == 0 {
        Ok((r, Seq::empty()))
    } else {
        match r.find(accs[0]) {
            Err(e) => Err(e),
            Ok(taken) => match read_all(r.after(Ok(taken)), accs.drop_first()) {
                Err(e) => Err(e),
                Ok((last, values)) => Ok((last, seq![taken.value] + values)),
            },
        }
    }
}

/// `read_all` by its first read and the reads that follow.
pub proof fn lemma_read_all_first(r: ReaderModel, accs: Seq<Accessor>)
    requires
        accs.len() > 0,
    ensures
        read_all(r, accs) == (match r.find(accs[0]) {
            Err(e) => Err(e),
            Ok(taken) => match read_all(r.after(Ok(taken)), accs.drop_first()) {
                Err(e) => Err(e),
                Ok((last, values)) => Ok((last, seq![taken.value] + values)),
            },
        }),
{
}

/// What a checked reader on `schema` makes of the front of `bytes` when it reads
/// with `accs` in order and is then finalized: the values, and how many bytes
/// they took.
pub open spec fn decode_prefix(schema: Seq<Chunks>, bytes: Seq<u8>, accs: Seq<Accessor>)
    -> Result<(Seq<Field>, nat), MessageError> {
    match read_all(ReaderModel::start(schema, bytes), accs) {
        Err(e) => Err(e),
        Ok((last, values)) => match last.find_end() {
            Err(e) => Err(e),
            Ok(_) => Ok((values, last.byte)),
        },
    }
}

/// As `decode_prefix`, the values alone. Bytes behind the last field are left
/// unread.
pub open spec fn decode(schema: Seq<Chunks>, bytes: Seq<u8>, accs: Seq<Accessor>) -> Result<
    Seq<Field>,
    MessageError,
> {
    match decode_prefix(schema, bytes, accs) {
        Err(e) => Err(e),
        Ok((values, _)) => Ok(values),
    }
}

/// Takes fields out of a borrowed byte slice, checking each against its schema.
///
/// A checked reader serves an accessor only where the schema has a chunk of that
/// kind, or a wildcard, at the schema cursor. An unchecked reader consults no
/// schema and leaves the schema cursor alone. A step that fails moves neither
/// cursor and leaves the reader aborted; every later step then fails with the
/// same error, until `reset`.
#[derive(Debug)]
pub struct ConnectionReader<'a> {
    pub current_byte: usize,
    pub current_chunk: usize,
    pub msg: &'a [u8],
    pub protocol: Vec<Chunks>,
    pub unchecked: bool,
    pub state: ReaderState,
}

impl<'a> View for ConnectionReader<'a> {
    type V = ReaderModel;

    open spec fn view(&self) -> ReaderModel {
        ReaderModel {
            bytes: self.msg@,
            byte: self.current_byte as nat,
            chunk: self.current_chunk as nat,
            schema: self.protocol@,
            unchecked: self.unchecked,
            state: self.state,
        }
    }
}

impl<'a> ConnectionReader<'a> {
    /// A fresh, checked reader at the start of `msg` and of `protocol`.
    pub fn new(protocol: Vec<Chunks>, msg: &'a [u8]) -> (r: ConnectionReader<'a>)
        ensures
            r@ == ReaderModel::start(protocol@, msg@),
    {
        ConnectionReader {
            current_byte: 0,
            current_chunk: 0,
            msg,
            protocol,
            unchecked: false,
            state: ReaderState::Fresh,
        }
    }

    /// The same reader, unchecked from now on.
    pub fn unchecked(self) -> (r: ConnectionReader<'a>)
        ensures
            r@ == (ReaderModel { unchecked: true, ..self@ }),
    {
        ConnectionReader {
            current_byte: self.current_byte,
            current_chunk: self.current_chunk,
            msg: self.msg,
            protocol: self.protocol,
            unchecked: true,
            state: self.state,
        }
    }

    /// The chunk at the schema cursor.
    fn slot(&self) -> (slot: Option<Chunks>)
        ensures
            slot == self@.slot(),
    {
        if self.current_chunk < self.protocol.len() {
            Some(self.protocol[self.current_chunk])
        } else {
            None
        }
    }

    /// The layout for a read with `acc`, if the schema allows one.
    fn layout_for(&self, acc: Accessor) -> (layout: Option<Layout>)
        ensures
            layout == read_layout(acc, self.unchecked, self@.slot()),
    {
        if self.unchecked {
            Some(acc.natural())
        } else {
            match self.slot() {
                Some(Chunks::Any) | Some(Chunks::Rest) => Some(Layout::Fixed(8)),
                Some(chunk) => acc.exact(chunk),
                None => None,
            }
        }
    }

    /// The layout for a skip.
    fn layout_for_skip(&self) -> (layout: Option<Layout>)
        ensures
            layout == skip_layout(self@.slot()),
    {
        match self.slot() {
            Some(Chunks::Int { size }) => Accessor::Int.exact(Chunks::Int { size }),
            Some(Chunks::Uint { size }) => Accessor::Uint.exact(Chunks::Uint { size }),
            Some(Chunks::Float) => Some(Layout::Fixed(8)),
            Some(Chunks::String) => Some(Layout::Prefixed),
            Some(Chunks::Binary) => Some(Layout::Prefixed),
            Some(Chunks::Bool) => Some(Layout::Fixed(1)),
            Some(Chunks::Any) => Some(Layout::Fixed(8)),
            Some(Chunks::Rest) => Some(Layout::Fixed(8)),
            None => None,
        }
    }

    /// Finds the payload of the next field: where it starts in the input and
    /// where it ends, which is where the field ends too.
    fn locate(&self, layout: Option<Layout>) -> (r: Result<(usize, usize), MessageError>)
        requires
            layout matches Some(Layout::Fixed(width)) ==> 1 <= width <= 8,
        ensures
            match self@.gated(payload_step(layout, self@.remaining())) {
                Err(e) => r == Err::<(usize, usize), MessageError>(e),
                Ok((payload, bytes)) => {
                    &&& r matches Ok((start, end))
                    &&& self.current_byte <= start <= end <= self.msg@.len()
                    &&& self.msg@.subrange(start as int, end as int) == payload
                    &&& end == self.current_byte + bytes
                    &&& layout matches Some(Layout::Fixed(width)) ==> end - start == width
                },
            },
    {
        match self.state {
            ReaderState::Aborted(e) => {
                return Err(e);
            },
            ReaderState::Complete => {
                return Err(MessageError::SchemaMismatch);
            },
            _ => {},
        }
        let len = self.msg.len();
        let left: usize = if self.current_byte <= len {
            len - self.current_byte
        } else {
            0
        };
        let ghost rest = self@.remaining();
        assert(rest.len() == left);
        match layout {
            None => Err(MessageError::SchemaMismatch),
            Some(Layout::Fixed(width)) => {
                if left < width {
                    Err(MessageError::OutOfBounds)
                } else {
                    let start = self.current_byte;
                    let end = start + width;
                    assert(self.msg@.subrange(start as int, end as int) =~= rest.take(
                        width as int,
                    ));
                    Ok((start, end))
                }
            },
            Some(Layout::Prefixed) => {
                if left < 8 {
                    Err(MessageError::OutOfBounds)
                } else {
                    let count = read_be(self.msg, self.current_byte, 8);
                    let start = self.current_byte + 8;
                    assert(self.msg@.subrange(self.current_byte as int, start as int)
                        =~= rest.take(8));
                    if count > (left - 8) as u64 {
                        Err(MessageError::OutOfBounds)
                    } else {
                        let end = start + count as usize;
                        assert(self.msg@.subrange(start as int, end as int) =~= rest.subrange(
                            8,
                            8 + count as int,
                        ));
                        Ok((start, end))
                    }
                }
            },
        }
    }

    /// Moves the byte cursor to `end` and the schema cursor past its chunk; the
    /// latter only where the step went by the schema.
    fn commit(&mut self, end: usize, by_schema: bool)
        requires
            old(self).current_byte <= end,
            by_schema ==> old(self)@.slot() is Some,
        ensures
            final(self)@ == (ReaderModel {
                byte: end as nat,
                chunk: old(self)@.chunk + slots_taken(!by_schema, old(self)@.slot()),
                state: ReaderState::Reading,
                ..old(self)@
            }),
    {
        if by_schema {
            let len = self.protocol.len();
            assert(self.current_chunk < len);
            match self.slot() {
                Some(Chunks::Rest) => {},
                _ => {
                    self.current_chunk = self.current_chunk + 1;
                },
            }
        }
        self.current_byte = end;
        self.state = ReaderState::Reading;
    }

    /// Leaves the reader aborted with `e`.
    fn abort(&mut self, e: MessageError)
        ensures
            final(self)@ == old(self)@.after(Err(e)),
    {
        self.state = ReaderState::Aborted(e);
    }

    /// Reads a signed integer of the width that the schema declares, or of eight
    /// bytes at a wildcard and where the reader is unchecked, and sign-extends it.
    pub fn read_int(&mut self) -> (r: Result<i64, MessageError>)
        ensures
            final(self)@ == old(self)@.after(old(self)@.find(Accessor::Int)),
            match old(self)@.find(Accessor::Int) {
                Ok(taken) => r matches Ok(v) && taken.value == Field::Int(v),
                Err(e) => r == Err::<i64, MessageError>(e),
            },
    {
        proof {
            reveal(read_step);
        }
        match self.locate(self.layout_for(Accessor::Int)) {
            Err(e) => {
                self.abort(e);
                Err(e)
            },
            Ok((start, end)) => {
                proof {
                    lemma_be_value_bound(self.msg@.subrange(start as int, end as int));
                    lemma_pow256_values();
                    lemma_pow256_monotonic((end - start) as nat, 8);
                }
                let v = to_signed(read_be(self.msg, start, end - start), end - start);
                self.commit(end, !self.unchecked);
                Ok(v)
            },
        }
    }

    /// Reads a double of eight bytes and hands out its 64-bit pattern.
    pub fn read_float_bits(&mut self) -> (r: Result<u64, MessageError>)
        ensures
            final(self)@ == old(self)@.after(old(self)@.find(Accessor::Float)),
            match old(self)@.find(Accessor::Float) {
                Ok(taken) => r matches Ok(v) && taken.value == Field::Float(v),
                Err(e) => r == Err::<u64, MessageError>(e),
            },
    {
        proof {
            reveal(read_step);
        }
        match self.locate(self.layout_for(Accessor::Float)) {
            Err(e) => {
                self.abort(e);
                Err(e)
            },
            Ok((start, end)) => {
                proof {
                    lemma_be_value_bound(self.msg@.subrange(start as int, end as int));
                    lemma_pow256_values();
                }
                let v = read_be(self.msg, start, end - start);
                self.commit(end, !self.unchecked);
                Ok(v)
            },
        }
    }

    /// Reads an unsigned integer of the width that the schema declares, or of
    /// eight bytes at a wildcard and where the reader is unchecked.
    pub fn read_uint(&mut self) -> (r: Result<u64, MessageError>)
        ensures
            final(self)@ == old(self)@.after(old(self)@.find(Accessor::Uint)),
            match old(self)@.find(Accessor::Uint) {
                Ok(taken) => r matches Ok(v) && taken.value == Field::Uint(v),
                Err(e) => r == Err::<u64, MessageError>(e),
            },
    {
        proof {
            reveal(read_step);
        }
        match self.locate(self.layout_for(Accessor::Uint)) {
            Err(e) => {
                self.abort(e);
                Err(e)
            },
            Ok((start, end)) => {
                proof {
                    lemma_be_value_bound(self.msg@.subrange(start as int, end as int));
                    lemma_pow256_values();
                    lemma_pow256_monotonic((end - start) as nat, 8);
                }
                let v = read_be(self.msg, start, end - start);
                self.commit(end, !self.unchecked);
                Ok(v)
            },
        }
    }

    /// Reads text: the bytes behind an 8-byte length, or eight raw bytes at a
    /// wildcard. They must be UTF-8.
    pub fn read_string(&mut self) -> (r: Result<String, MessageError>)
        ensures
            final(self)@ == old(self)@.after(old(self)@.find(Accessor::Text)),
            match old(self)@.find(Accessor::Text) {
                Ok(taken) => r matches Ok(s) && taken.value == Field::Text(s@),
                Err(e) => r == Err::<String, MessageError>(e),
            },
    {
        proof {
            reveal(read_step);
        }
        match self.locate(self.layout_for(Accessor::Text)) {
            Err(e) => {
                self.abort(e);
                Err(e)
            },
            Ok((start, end)) => {
                match decode_text(slice_to_vec(slice_subrange(self.msg, start, end))) {
                    Some(text) => {
                        self.commit(end, !self.unchecked);
                        Ok(text)
                    },
                    None => {
                        self.abort(MessageError::InvalidUtf8);
                        Err(MessageError::InvalidUtf8)
                    },
                }
            },
        }
    }

    /// Reads raw bytes: those behind an 8-byte length, or eight at a wildcard.
    pub fn read_binary(&mut self) -> (r: Result<Vec<u8>, MessageError>)
        ensures
            final(self)@ == old(self)@.after(old(self)@.find(Accessor::Binary)),
            match old(self)@.find(Accessor::Binary) {
                Ok(taken) => r matches Ok(b) && taken.value == Field::Binary(b@),
                Err(e) => r == Err::<Vec<u8>, MessageError>(e),
            },
    {
        proof {
            reveal(read_step);
        }
        match self.locate(self.layout_for(Accessor::Binary)) {
            Err(e) => {
                self.abort(e);
                Err(e)
            },
            Ok((start, end)) => {
                let bytes = slice_to_vec(slice_subrange(self.msg, start, end));
                self.commit(end, !self.unchecked);
                Ok(bytes)
            },
        }
    }

    /// Reads a boolean: true unless the byte is zero. At a wildcard the byte is
    /// the first of the eight that are taken.
    pub fn read_bool(&mut self) -> (r: Result<bool, MessageError>)
        ensures
            final(self)@ == old(self)@.after(old(self)@.find(Accessor::Bool)),
            match old(self)@.find(Accessor::Bool) {
                Ok(taken) => r matches Ok(v) && taken.value == Field::Bool(v),
                Err(e) => r == Err::<bool, MessageError>(e),
            },
    {
        proof {
            reveal(read_step);
        }
        match self.locate(self.layout_for(Accessor::Bool)) {
            Err(e) => {
                self.abort(e);
                Err(e)
            },
            Ok((start, end)) => {
                let v = self.msg[start] != 0;
                self.commit(end, !self.unchecked);
                Ok(v)
            },
        }
    }

    /// Succeeds where every schema position has been read, and then leaves the
    /// reader complete.
    pub fn finalize(&mut self) -> (r: Result<(), MessageError>)
        ensures
            r == old(self)@.find_end(),
            final(self)@ == old(self)@.after_end(r),
    {
        let outcome = match self.state {
            ReaderState::Aborted(e) => Err(e),
            _ => if self.current_chunk == self.protocol.len() {
                Ok(())
            } else {
                Err(MessageError::IncompleteSchema)
            },
        };
        match outcome {
            Ok(_) => {
                self.state = ReaderState::Complete;
            },
            Err(e) => {
                self.state = ReaderState::Aborted(e);
            },
        }
        outcome
    }

    /// Rewinds both cursors to the start of the same input; the reader is fresh
    /// again, whatever state it was in.
    pub fn reset(&mut self)
        ensures
            final(self)@ == old(self)@.rewound(),
    {
        self.current_byte = 0;
        self.current_chunk = 0;
        self.state = ReaderState::Fresh;
    }

    /// Passes over the chunk at the schema cursor without decoding it. This goes
    /// by the schema even where the reader is unchecked.
    pub fn skip(&mut self) -> (r: Result<(), MessageError>)
        ensures
            final(self)@ == old(self)@.after(old(self)@.find_skip()),
            match old(self)@.find_skip() {
                Ok(_) => r is Ok,
                Err(e) => r == Err::<(), MessageError>(e),
            },
    {
        match self.locate(self.layout_for_skip()) {
            Err(e) => {
                self.abort(e);
                Err(e)
            },
            Ok((_, end)) => {
                self.commit(end, true);
                Ok(())
            },
        }
    }

    /// Moves the schema cursor on by one; the byte cursor stays. This does not
    /// look at the schema: the cursor may move past its end, and `finalize` then
    /// reports an incomplete schema. Only a reader that is aborted or complete
    /// refuses.
    pub fn advance(&mut self) -> (r: Result<(), MessageError>)
        requires
            old(self)@.active() ==> old(self).current_chunk < usize::MAX,
        ensures
            final(self)@ == old(self)@.after(old(self)@.find_advance()),
            match old(self)@.find_advance() {
                Ok(_) => r is Ok,
                Err(e) => r == Err::<(), MessageError>(e),
            },
            old(self)@.active() ==> r is Ok && final(self)@ == (ReaderModel {
                chunk: old(self)@.chunk + 1,
                state: ReaderState::Reading,
                ..old(self)@
            }),
    {
        match self.state {
            ReaderState::Aborted(e) => Err(e),
            ReaderState::Complete => {
                self.abort(MessageError::SchemaMismatch);
                Err(MessageError::SchemaMismatch)
            },
            _ => {
                self.current_chunk = self.current_chunk + 1;
                self.state = ReaderState::Reading;
                Ok(())
            },
        }
    }
}

} // verus!
