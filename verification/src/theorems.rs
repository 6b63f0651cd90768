//! What holds of the codec as a whole: whole schemas written and read back.

use crate::error::MessageError;
use crate::model::{
    accepts, accessors, conforms, fits, read_layout, read_step, wire_at, wire_span, write_step,
    Accessor, Field, Taken,
};
use crate::reader::{decode, decode_prefix, read_all, ReaderModel, ReaderState};
use crate::schema::Chunks;
use crate::wire::{
    be_bytes, be_value, lemma_be_bytes_len, lemma_be_value_bound, lemma_pow256_values,
    lemma_signed_round_trip, lemma_unsigned_round_trip, pow256,
};
use crate::writer::{encode, write_all, WriterModel};
use vstd::prelude::*;
use vstd::utf8::encode_utf8;

verus! {

/// A field that fits its chunk is read back from its own bytes, whatever follows
/// them, and the read takes exactly those bytes.
pub proof fn lemma_step_round_trip(chunk: Chunks, field: Field, tail: Seq<u8>)
    requires
        fits(chunk, field),
    ensures
        write_step(field, false, Some(chunk)) == Ok::<_, MessageError>(
            crate::model::Written { bytes: wire_at(chunk, field), slots: 1 },
        ),
        read_step(field.accessor(), false, Some(chunk), wire_at(chunk, field) + tail) == Ok::<
            _,
            MessageError,
        >(Taken { value: field, bytes: wire_at(chunk, field).len(), slots: 1 }),
        wire_at(chunk, field).len() >= 1,
{
    reveal(read_step);
    let wire = wire_at(chunk, field);
    let all = wire + tail;
    lemma_pow256_values();
    match field {
        Field::Int(v) => {
            let width = chunk->Int_size as nat;
            lemma_be_bytes_len(crate::wire::twos_complement(v), width);
            lemma_signed_round_trip(v, width);
            assert(all.take(width as int) =~= wire);
        },
        Field::Uint(v) => {
            let width = chunk->Uint_size as nat;
            lemma_be_bytes_len(v as nat, width);
            lemma_unsigned_round_trip(v as nat, width);
            assert(all.take(width as int) =~= wire);
        },
        Field::Float(bits) => {
            lemma_be_bytes_len(bits as nat, 8);
            lemma_unsigned_round_trip(bits as nat, 8);
            assert(all.take(8) =~= wire);
        },
        Field::Text(s) => {
            let payload = encode_utf8(s);
            lemma_be_bytes_len(payload.len(), 8);
            lemma_unsigned_round_trip(payload.len(), 8);
            assert(all.take(8) =~= be_bytes(payload.len(), 8));
            assert(all.subrange(8, 8 + payload.len() as int) =~= payload);
            vstd::utf8::encode_utf8_valid_utf8(s);
            vstd::utf8::encode_utf8_decode_utf8(s);
        },
        Field::Binary(b) => {
            lemma_be_bytes_len(b.len(), 8);
            lemma_unsigned_round_trip(b.len(), 8);
            assert(all.take(8) =~= be_bytes(b.len(), 8));
            assert(all.subrange(8, 8 + b.len() as int) =~= b);
        },
        Field::Bool(b) => {
            assert(all.take(1) =~= wire);
        },
    }
}

/// The schema cursor of a writer: a checked writer accepts a field exactly where
/// its schema has a chunk that accepts the field at the cursor, appends the
/// field's wire form and moves the cursor on by one; an unchecked writer accepts
/// every field and leaves the cursor where it is.
pub proof fn theorem_writer_cursor(w: WriterModel, field: Field)
    ensures
        !w.unchecked ==> (w.write(field) is Ok <==> (w.slot() matches Some(chunk) && accepts(
            chunk,
            field,
        ))),
        !w.unchecked ==> (w.write(field) matches Ok(next) ==> next.cursor == w.cursor + 1
            && next.bytes == w.bytes + wire_at(w.slot()->Some_0, field)),
        w.unchecked ==> (w.write(field) matches Ok(next) && next.cursor == w.cursor),
        w.write(field) matches Ok(next) ==> next.schema == w.schema && next.unchecked
            == w.unchecked && w.bytes.is_prefix_of(next.bytes),
        w.write(field) matches Err(e) ==> e == MessageError::SchemaMismatch,
{
}

/// A checked writer that is offered only what its schema accepts writes the wire
/// forms one after the other and moves on by one position for each.
pub proof fn lemma_write_all(w: WriterModel, fields: Seq<Field>)
    requires
        !w.unchecked,
        w.cursor + fields.len() <= w.schema.len(),
        forall|i: int|
            0 <= i < fields.len() ==> accepts(w.schema[w.cursor + i], #[trigger] fields[i]),
    ensures
        write_all(w, fields) == Ok::<_, MessageError>(
            WriterModel {
                bytes: w.bytes + wire_span(w.schema, w.cursor, fields),
                cursor: w.cursor + fields.len(),
                ..w
            },
        ),
    decreases fields.len(),
{
    if fields.len() == 0 {
        assert(w.bytes + Seq::<u8>::empty() =~= w.bytes);
    } else {
        let next = w.write(fields[0])->Ok_0;
        let rest = fields.drop_first();
        assert forall|i: int| 0 <= i < rest.len() implies accepts(
            next.schema[next.cursor + i],
            #[trigger] rest[i],
        ) by {
            assert(rest[i] == fields[i + 1]);
        }
        lemma_write_all(next, rest);
        assert(next.bytes + wire_span(w.schema, next.cursor, rest) =~= w.bytes + wire_span(
            w.schema,
            w.cursor,
            fields,
        ));
    }
}

/// A checked writer stops with a schema mismatch at the first field that its
/// schema does not accept in that place.
pub proof fn lemma_write_all_refused(w: WriterModel, fields: Seq<Field>, bad: int)
    requires
        !w.unchecked,
        0 <= bad < fields.len(),
        w.cursor + bad >= w.schema.len() || !accepts(w.schema[w.cursor + bad], fields[bad]),
    ensures
        write_all(w, fields) == Err::<WriterModel, _>(MessageError::SchemaMismatch),
    decreases fields.len(),
{
    match w.write(fields[0]) {
        Err(_) => {},
        Ok(next) => {
            assert(bad > 0);
            let rest = fields.drop_first();
            assert(rest[bad - 1] == fields[bad]);
            lemma_write_all_refused(next, rest, bad - 1);
        },
    }
}

/// Every field is offered at a schema position that accepts it.
pub open spec fn all_accepted(schema: Seq<Chunks>, fields: Seq<Field>) -> bool {
    &&& fields.len() <= schema.len()
    &&& forall|i: int| 0 <= i < fields.len() ==> accepts(schema[i], #[trigger] fields[i])
}

/// Strict completeness of the writer: encoding succeeds exactly where one field
/// was written for each chunk of the schema, in order and of the chunk's kind. A
/// field out of place gives a schema mismatch, too few fields an incomplete
/// schema.
pub proof fn theorem_writer_completeness(schema: Seq<Chunks>, fields: Seq<Field>)
    ensures
        encode(schema, fields) is Ok <==> all_accepted(schema, fields) && fields.len()
            == schema.len(),
        all_accepted(schema, fields) && fields.len() == schema.len() ==> encode(schema, fields)
            == Ok::<_, MessageError>(wire_span(schema, 0, fields)),
        all_accepted(schema, fields) && fields.len() < schema.len() ==> encode(schema, fields)
            == Err::<Seq<u8>, _>(MessageError::IncompleteSchema),
        !all_accepted(schema, fields) ==> encode(schema, fields) == Err::<Seq<u8>, _>(
            MessageError::SchemaMismatch,
        ),
{
    let w = WriterModel::start(schema);
    if all_accepted(schema, fields) {
        lemma_write_all(w, fields);
        assert(w.bytes + wire_span(schema, 0, fields) =~= wire_span(schema, 0, fields));
    } else if fields.len() > schema.len() {
        lemma_write_all_refused(w, fields, schema.len() as int);
    } else {
        let bad = choose|i: int| 0 <= i < fields.len() && !accepts(schema[i], #[trigger] fields[i]);
        lemma_write_all_refused(w, fields, bad);
    }
}

/// A checked reader in use, standing before the wire forms of fields that fit
/// the schema from its position on, reads those fields back and ends behind
/// their bytes.
pub proof fn lemma_read_all(r: ReaderModel, fields: Seq<Field>, tail: Seq<u8>)
    requires
        !r.unchecked,
        r.active(),
        r.chunk + fields.len() <= r.schema.len(),
        forall|i: int| 0 <= i < fields.len() ==> fits(r.schema[r.chunk + i], #[trigger] fields[i]),
        r.remaining() == wire_span(r.schema, r.chunk, fields) + tail,
    ensures
        read_all(r, accessors(fields)) matches Ok((last, values)) && {
            &&& values == fields
            &&& last.active()
            &&& last.byte == r.byte + wire_span(r.schema, r.chunk, fields).len()
            &&& last.chunk == r.chunk + fields.len()
            &&& last.bytes == r.bytes
            &&& last.schema == r.schema
            &&& !last.unchecked
            &&& last.remaining() == tail
        },
    decreases fields.len(),
{
    let accs = accessors(fields);
    if fields.len() == 0 {
        assert(wire_span(r.schema, r.chunk, fields) + tail =~= tail);
    } else {
        let chunk = r.schema[r.chunk as int];
        let rest = fields.drop_first();
        let wire = wire_at(chunk, fields[0]);
        let later = wire_span(r.schema, r.chunk + 1, rest);
        assert(r.remaining() =~= wire + (later + tail));
        lemma_step_round_trip(chunk, fields[0], later + tail);
        let next = r.after(r.find(accs[0]));
        assert(r.byte <= r.bytes.len());
        assert(next.remaining() =~= r.remaining().skip(wire.len() as int));
        assert(next.remaining() =~= later + tail);
        assert forall|i: int| 0 <= i < rest.len() implies fits(
            next.schema[next.chunk + i],
            #[trigger] rest[i],
        ) by {
            assert(rest[i] == fields[i + 1]);
        }
        lemma_read_all(next, rest, tail);
        assert(accs.drop_first() =~= accessors(rest));
        assert(seq![fields[0]] + rest =~= fields);
    }
}

/// What conforms to a schema is decoded from the front of any bytes that begin
/// with its encoding, and the decode takes exactly the encoding.
pub proof fn lemma_decode_prefix(schema: Seq<Chunks>, fields: Seq<Field>, tail: Seq<u8>)
    requires
        conforms(schema, fields),
    ensures
        decode_prefix(schema, wire_span(schema, 0, fields) + tail, accessors(fields)) == Ok::<
            _,
            MessageError,
        >((fields, wire_span(schema, 0, fields).len())),
{
    let r = ReaderModel::start(schema, wire_span(schema, 0, fields) + tail);
    assert(r.remaining() =~= wire_span(schema, 0, fields) + tail);
    lemma_read_all(r, fields, tail);
}

/// Round trip: whatever conforms to a schema is encoded without error, and
/// decoding the bytes by the same schema gives the same values back, takes every
/// byte and completes the schema.
pub proof fn theorem_round_trip(schema: Seq<Chunks>, fields: Seq<Field>)
    requires
        conforms(schema, fields),
    ensures
        encode(schema, fields) matches Ok(bytes) && decode_prefix(
            schema,
            bytes,
            accessors(fields),
        ) == Ok::<_, MessageError>((fields, bytes.len())) && decode(
            schema,
            bytes,
            accessors(fields),
        ) == Ok::<_, MessageError>(fields),
{
    theorem_writer_completeness(schema, fields);
    let bytes = wire_span(schema, 0, fields);
    assert(bytes + Seq::<u8>::empty() =~= bytes);
    lemma_decode_prefix(schema, fields, Seq::empty());
}

/// The byte cursor only moves forward and never leaves the input: a step that
/// would pass the end fails instead, and moves nothing.
pub proof fn theorem_cursor_within_input(r: ReaderModel, acc: Accessor)
    requires
        r.byte <= r.bytes.len(),
    ensures
        r.byte <= r.after(r.find(acc)).byte <= r.bytes.len(),
        r.byte <= r.after(r.find_skip()).byte <= r.bytes.len(),
        r.after(r.find_advance()).byte == r.byte,
        r.active() ==> r.find_advance() is Ok && r.after(r.find_advance()).chunk == r.chunk + 1,
        r.find(acc) is Err ==> r.after(r.find(acc)).byte == r.byte && r.after(r.find(acc)).chunk
            == r.chunk,
        r.find_skip() is Err ==> r.after(r.find_skip()).byte == r.byte && r.after(
            r.find_skip(),
        ).chunk == r.chunk,
{
    reveal(read_step);
}

/// The life of a decoder: a step on a decoder in use leaves it reading or
/// aborted, and aborted exactly where the step failed; an aborted decoder stays
/// as it is, whatever is asked of it; `finalize` completes a decoder exactly
/// where it succeeds; and a reset makes any decoder fresh, at the start of its
/// input.
pub proof fn theorem_reader_states(r: ReaderModel, acc: Accessor)
    ensures
        r.active() ==> (r.after(r.find(acc)).state is Reading <==> r.find(acc) is Ok),
        r.active() ==> (r.after(r.find(acc)).state is Aborted <==> r.find(acc) is Err),
        r.active() ==> (r.after(r.find_skip()).state is Reading <==> r.find_skip() is Ok),
        r.active() ==> (r.after(r.find_advance()).state is Reading <==> r.find_advance() is Ok),
        r.state is Aborted ==> r.after(r.find(acc)) == r && r.after(r.find_skip()) == r
            && r.after(r.find_advance()) == r && r.after_end(r.find_end()) == r,
        r.state is Aborted ==> r.find(acc) is Err && r.find_skip() is Err && r.find_advance() is Err
            && r.find_end() is Err,
        r.after_end(r.find_end()).state is Complete <==> r.find_end() is Ok,
        r.find_end() is Ok <==> !(r.state is Aborted) && r.complete(),
        r.rewound().state is Fresh && r.rewound().byte == 0 && r.rewound().chunk == 0,
        r.rewound().bytes == r.bytes && r.rewound().schema == r.schema,
        !(r.state is Aborted) && !r.complete() ==> r.find_end() == Err::<(), _>(
            MessageError::IncompleteSchema,
        ),
        r.after_end(r.find_end()).byte == r.byte && r.after_end(r.find_end()).chunk == r.chunk
            && r.after_end(r.find_end()).bytes == r.bytes,
        r.active() ==> r.after(r.find_advance()) == (ReaderModel {
            chunk: r.chunk + 1,
            state: ReaderState::Reading,
            ..r
        }),
{
}

/// The decoder after a step that took `bytes` bytes and `slots` schema
/// positions.
pub open spec fn moved(r: ReaderModel, bytes: nat, slots: nat) -> ReaderModel {
    ReaderModel { byte: r.byte + bytes, chunk: r.chunk + slots, state: ReaderState::Reading, ..r }
}

/// The `count` bytes of the input at the byte cursor.
pub open spec fn ahead(r: ReaderModel, count: nat) -> Seq<u8> {
    r.bytes.subrange(r.byte as int, (r.byte + count) as int)
}

/// An unsigned read, at an unsigned chunk of a checked decoder in use that has
/// the chunk's bytes before it: the value is the big-endian number of those
/// bytes, below 256 to the width; the byte cursor moves past them and the schema
/// cursor by one.
pub proof fn theorem_read_uint(r: ReaderModel, size: u8)
    requires
        r.active(),
        !r.unchecked,
        r.slot() == Some(Chunks::Uint { size }),
        1 <= size <= 8,
        r.byte + size <= r.bytes.len(),
    ensures
        be_value(ahead(r, size as nat)) < pow256(size as nat),
        r.find(Accessor::Uint) == Ok::<_, MessageError>(
            Taken {
                value: Field::Uint(be_value(ahead(r, size as nat)) as u64),
                bytes: size as nat,
                slots: 1,
            },
        ),
        r.after(r.find(Accessor::Uint)) == moved(r, size as nat, 1),
{
    reveal(read_step);
    assert(r.remaining().take(size as int) =~= ahead(r, size as nat));
    lemma_be_value_bound(ahead(r, size as nat));
}

/// A read of a double, at a double's chunk of a checked decoder in use that has
/// eight bytes before it: the 64-bit pattern is that of the eight bytes, bit for
/// bit; the byte cursor moves past them and the schema cursor by one.
pub proof fn theorem_read_float(r: ReaderModel)
    requires
        r.active(),
        !r.unchecked,
        r.slot() == Some(Chunks::Float),
        r.byte + 8 <= r.bytes.len(),
    ensures
        be_value(ahead(r, 8)) < pow256(8),
        r.find(Accessor::Float) == Ok::<_, MessageError>(
            Taken { value: Field::Float(be_value(ahead(r, 8)) as u64), bytes: 8, slots: 1 },
        ),
        r.after(r.find(Accessor::Float)) == moved(r, 8, 1),
{
    reveal(read_step);
    assert(r.remaining().take(8) =~= ahead(r, 8));
    lemma_be_value_bound(ahead(r, 8));
}

/// The bytes behind the 8-byte length at the byte cursor, where the input holds
/// the length and as many bytes as it says.
pub open spec fn behind_length(r: ReaderModel) -> Seq<u8> {
    r.bytes.subrange((r.byte + 8) as int, (r.byte + 8 + be_value(ahead(r, 8))) as int)
}

/// The input holds a length at the byte cursor and as many bytes as it says.
pub open spec fn holds_prefixed(r: ReaderModel) -> bool {
    r.byte + 8 <= r.bytes.len() && r.byte + 8 + be_value(ahead(r, 8)) <= r.bytes.len()
}

/// A read of bytes, at a binary chunk of a checked decoder in use: the result is
/// the bytes behind the 8-byte length; the byte cursor moves past the length and
/// the bytes, and the schema cursor by one.
pub proof fn theorem_read_binary(r: ReaderModel)
    requires
        r.active(),
        !r.unchecked,
        r.slot() == Some(Chunks::Binary),
        holds_prefixed(r),
    ensures
        behind_length(r).len() == be_value(ahead(r, 8)),
        r.find(Accessor::Binary) == Ok::<_, MessageError>(
            Taken {
                value: Field::Binary(behind_length(r)),
                bytes: 8 + be_value(ahead(r, 8)),
                slots: 1,
            },
        ),
        r.after(r.find(Accessor::Binary)) == moved(r, 8 + be_value(ahead(r, 8)), 1),
{
    reveal(read_step);
    let len = be_value(ahead(r, 8));
    assert(r.remaining().take(8) =~= ahead(r, 8));
    assert(r.remaining().subrange(8, 8 + len as int) =~= behind_length(r));
}

/// A read of text, at a text chunk of a checked decoder in use: the length
/// counts bytes; where the bytes behind it are UTF-8, the text is their
/// decoding, and its UTF-8 bytes are those bytes; where they are not, the read
/// is refused.
pub proof fn theorem_read_string(r: ReaderModel)
    requires
        r.active(),
        !r.unchecked,
        r.slot() == Some(Chunks::String),
        holds_prefixed(r),
    ensures
        vstd::utf8::valid_utf8(behind_length(r)) ==> {
            &&& r.find(Accessor::Text) == Ok::<_, MessageError>(
                Taken {
                    value: Field::Text(vstd::utf8::decode_utf8(behind_length(r))),
                    bytes: 8 + be_value(ahead(r, 8)),
                    slots: 1,
                },
            )
            &&& encode_utf8(vstd::utf8::decode_utf8(behind_length(r))) == behind_length(r)
            &&& r.after(r.find(Accessor::Text)) == moved(r, 8 + be_value(ahead(r, 8)), 1)
        },
        !vstd::utf8::valid_utf8(behind_length(r)) ==> r.find(Accessor::Text) == Err::<Taken, _>(
            MessageError::InvalidUtf8,
        ),
{
    reveal(read_step);
    let len = be_value(ahead(r, 8));
    assert(r.remaining().take(8) =~= ahead(r, 8));
    assert(r.remaining().subrange(8, 8 + len as int) =~= behind_length(r));
    if vstd::utf8::valid_utf8(behind_length(r)) {
        vstd::utf8::decode_utf8_encode_utf8(behind_length(r));
    }
}

/// By how much a step at a wildcard moves the schema cursor: by one at `Any`,
/// not at all at `Rest`.
pub open spec fn wildcard_slots(chunk: Chunks) -> nat {
    if chunk is Any {
        1
    } else {
        0
    }
}

/// A read of a boolean at a wildcard, on a checked decoder in use that has eight
/// bytes before it: the value is whether the first of them is not zero, and all
/// eight are taken.
pub proof fn theorem_read_bool_at_wildcard(r: ReaderModel, chunk: Chunks)
    requires
        r.active(),
        !r.unchecked,
        r.slot() == Some(chunk),
        chunk.is_wildcard(),
        r.byte + 8 <= r.bytes.len(),
    ensures
        r.find(Accessor::Bool) == Ok::<_, MessageError>(
            Taken {
                value: Field::Bool(r.bytes[r.byte as int] != 0),
                bytes: 8,
                slots: wildcard_slots(chunk),
            },
        ),
        r.after(r.find(Accessor::Bool)) == moved(r, 8, wildcard_slots(chunk)),
{
    reveal(read_step);
    assert(r.remaining().take(8)[0] == r.bytes[r.byte as int]);
}

/// A skip at a wildcard, on a decoder in use that has eight bytes before it,
/// checked or not: eight bytes are taken, and the schema cursor moves at `Any`
/// only.
pub proof fn theorem_skip_at_wildcard(r: ReaderModel, chunk: Chunks)
    requires
        r.active(),
        r.slot() == Some(chunk),
        chunk.is_wildcard(),
        r.byte + 8 <= r.bytes.len(),
    ensures
        r.find_skip() matches Ok(taken) && taken.bytes == 8 && taken.slots == wildcard_slots(
            chunk,
        ),
        r.after(r.find_skip()) == moved(r, 8, wildcard_slots(chunk)),
{
}

/// Reads that succeed move the byte cursor forward, by at least one byte each,
/// and leave it within the input.
pub proof fn lemma_read_all_within(r: ReaderModel, accs: Seq<Accessor>)
    requires
        r.byte <= r.bytes.len(),
    ensures
        read_all(r, accs) matches Ok((last, values)) ==> {
            &&& values.len() == accs.len()
            &&& r.byte + accs.len() <= last.byte <= r.bytes.len()
            &&& last.bytes == r.bytes
        },
    decreases accs.len(),
{
    reveal(read_step);
    if accs.len() > 0 {
        if let Ok(taken) = r.find(accs[0]) {
            lemma_read_all_within(r.after(Ok(taken)), accs.drop_first());
        }
    }
}

/// A read that succeeds takes at least one byte, and the schema position that
/// its mode and chunk say.
pub proof fn lemma_read_shape(r: ReaderModel, acc: Accessor)
    ensures
        r.find(acc) matches Ok(taken) ==> taken.bytes >= 1 && taken.slots
            == crate::model::slots_taken(r.unchecked, r.slot()),
{
    reveal(read_step);
}

/// What is read with the unsigned accessor at an unsigned chunk lies within the
/// chunk's width.
pub proof fn lemma_uint_within_width(r: ReaderModel, size: u8)
    requires
        !r.unchecked,
        r.slot() == Some(Chunks::Uint { size }),
    ensures
        r.find(Accessor::Uint) matches Ok(taken) ==> taken.value matches Field::Uint(v) && v
            < crate::wire::pow256(size as nat) && taken.bytes == size,
{
    reveal(read_step);
    if let Ok(taken) = r.find(Accessor::Uint) {
        crate::wire::lemma_be_value_bound(r.remaining().take(size as int));
        crate::wire::lemma_pow256_monotonic(size as nat, 8);
        lemma_pow256_values();
    }
}

/// Strict completeness of the reader, on a schema without a `Rest` chunk: reads
/// that all succeed have met one chunk each, in order, each of the accessor's
/// kind or a wildcard; and `finalize` then succeeds exactly where there were as
/// many reads as the schema has chunks, and reports an incomplete schema where
/// there were fewer.
pub proof fn lemma_reads_in_order(r: ReaderModel, accs: Seq<Accessor>)
    requires
        !r.unchecked,
        r.active(),
        r.chunk <= r.schema.len(),
        forall|i: int| r.chunk <= i < r.schema.len() ==> !(#[trigger] r.schema[i] is Rest),
    ensures
        read_all(r, accs) matches Ok((last, values)) ==> {
            &&& values.len() == accs.len()
            &&& last.chunk == r.chunk + accs.len()
            &&& last.chunk <= r.schema.len()
            &&& last.schema == r.schema
            &&& last.state != ReaderState::Complete
            &&& !(last.state is Aborted)
            &&& forall|i: int|
                0 <= i < accs.len() ==> read_layout(
                    #[trigger] accs[i],
                    false,
                    Some(r.schema[r.chunk + i]),
                ) is Some
        },
    decreases accs.len(),
{
    reveal(read_step);
    if accs.len() > 0 {
        if let Ok(taken) = r.find(accs[0]) {
            let next = r.after(Ok(taken));
            let rest = accs.drop_first();
            assert(!(r.schema[r.chunk as int] is Rest));
            lemma_reads_in_order(next, rest);
            if let Ok((last, values)) = read_all(next, rest) {
                assert forall|i: int| 0 <= i < accs.len() implies read_layout(
                    #[trigger] accs[i],
                    false,
                    Some(r.schema[r.chunk + i]),
                ) is Some by {
                    if i > 0 {
                        assert(accs[i] == rest[i - 1]);
                    }
                }
            }
        }
    }
}

/// See `lemma_reads_in_order`: the same for a whole decode from the start.
pub proof fn theorem_reader_completeness(
    schema: Seq<Chunks>,
    bytes: Seq<u8>,
    accs: Seq<Accessor>,
)
    requires
        forall|i: int| 0 <= i < schema.len() ==> !(#[trigger] schema[i] is Rest),
    ensures
        decode(schema, bytes, accs) is Ok ==> accs.len() == schema.len() && forall|i: int|
            0 <= i < accs.len() ==> read_layout(#[trigger] accs[i], false, Some(schema[i])) is Some,
        read_all(ReaderModel::start(schema, bytes), accs) is Ok ==> {
            &&& accs.len() <= schema.len()
            &&& accs.len() == schema.len() ==> decode(schema, bytes, accs) is Ok
            &&& accs.len() < schema.len() ==> decode(schema, bytes, accs) == Err::<Seq<Field>, _>(
                MessageError::IncompleteSchema,
            )
        },
{
    lemma_reads_in_order(ReaderModel::start(schema, bytes), accs);
}

/// At a `Rest` chunk every successful read takes eight bytes and leaves the
/// schema cursor where it is, so that the schema is never complete; and reads
/// other than of text succeed as long as eight bytes are left.
pub proof fn lemma_rest_reads(r: ReaderModel, accs: Seq<Accessor>)
    requires
        !r.unchecked,
        r.active(),
        r.slot() == Some(Chunks::Rest),
        r.byte <= r.bytes.len(),
    ensures
        read_all(r, accs) matches Ok((last, values)) ==> {
            &&& values.len() == accs.len()
            &&& last.chunk == r.chunk
            &&& last.byte == r.byte + 8 * accs.len()
            &&& last.find_end() == Err::<(), _>(MessageError::IncompleteSchema)
        },
        (forall|i: int| 0 <= i < accs.len() ==> accs[i] != Accessor::Text) && r.byte + 8
            * accs.len() <= r.bytes.len() ==> read_all(r, accs) is Ok,
    decreases accs.len(),
{
    reveal(read_step);
    if accs.len() > 0 {
        let rest = accs.drop_first();
        if let Ok(taken) = r.find(accs[0]) {
            lemma_rest_reads(r.after(Ok(taken)), rest);
        }
        if (forall|i: int| 0 <= i < accs.len() ==> accs[i] != Accessor::Text) && r.byte + 8
            * accs.len() <= r.bytes.len() {
            assert(accs[0] != Accessor::Text);
            assert(r.find(accs[0]) is Ok);
            assert forall|i: int| 0 <= i < rest.len() implies rest[i] != Accessor::Text by {
                assert(rest[i] == accs[i + 1]);
            }
        }
    }
}

/// Wildcard semantics, open-ended: a decoder on the schema of one `Rest` chunk
/// goes on reading eight bytes at a time and never satisfies `finalize`.
pub proof fn theorem_rest_never_completes(bytes: Seq<u8>, accs: Seq<Accessor>)
    ensures
        decode(seq![Chunks::Rest], bytes, accs) is Err,
        read_all(ReaderModel::start(seq![Chunks::Rest], bytes), accs) matches Ok((last, _))
            ==> last.byte == 8 * accs.len() && last.chunk == 0,
        (forall|i: int| 0 <= i < accs.len() ==> accs[i] != Accessor::Text) && 8 * accs.len()
            <= bytes.len() ==> read_all(ReaderModel::start(seq![Chunks::Rest], bytes), accs) is Ok,
{
    lemma_rest_reads(ReaderModel::start(seq![Chunks::Rest], bytes), accs);
}

/// At `Any` chunks every successful read takes eight bytes and one schema
/// position; and reads other than of text succeed as long as eight bytes and a
/// chunk are left.
pub proof fn lemma_any_reads(r: ReaderModel, accs: Seq<Accessor>)
    requires
        !r.unchecked,
        r.active(),
        r.byte <= r.bytes.len(),
        r.chunk <= r.schema.len(),
        forall|i: int| r.chunk <= i < r.schema.len() ==> #[trigger] r.schema[i] is Any,
    ensures
        read_all(r, accs) matches Ok((last, values)) ==> {
            &&& values.len() == accs.len()
            &&& last.chunk == r.chunk + accs.len()
            &&& last.chunk <= r.schema.len()
            &&& last.byte == r.byte + 8 * accs.len()
            &&& last.schema == r.schema
            &&& !(last.state is Aborted)
        },
        (forall|i: int| 0 <= i < accs.len() ==> accs[i] != Accessor::Text) && r.byte + 8
            * accs.len() <= r.bytes.len() && r.chunk + accs.len() <= r.schema.len() ==> read_all(
            r,
            accs,
        ) is Ok,
    decreases accs.len(),
{
    reveal(read_step);
    if accs.len() > 0 {
        let rest = accs.drop_first();
        if r.chunk < r.schema.len() {
            assert(r.schema[r.chunk as int] is Any);
        }
        if let Ok(taken) = r.find(accs[0]) {
            lemma_any_reads(r.after(Ok(taken)), rest);
        }
        if (forall|i: int| 0 <= i < accs.len() ==> accs[i] != Accessor::Text) && r.byte + 8
            * accs.len() <= r.bytes.len() && r.chunk + accs.len() <= r.schema.len() {
            assert(accs[0] != Accessor::Text);
            assert(r.find(accs[0]) is Ok);
            assert forall|i: int| 0 <= i < rest.len() implies rest[i] != Accessor::Text by {
                assert(rest[i] == accs[i + 1]);
            }
        }
    }
}

/// Wildcard semantics, one position each: on a schema of `count` chunks `Any`,
/// each read takes eight bytes and one position, and the decode is complete
/// after `count` reads and not before.
pub proof fn theorem_any_fills_one_position(count: nat, bytes: Seq<u8>, accs: Seq<Accessor>)
    ensures
        ({
            let schema = Seq::new(count, |i: int| Chunks::Any);
            let reads = read_all(ReaderModel::start(schema, bytes), accs);
            &&& reads matches Ok((last, _)) ==> last.byte == 8 * accs.len() && last.chunk
                == accs.len()
            &&& decode(schema, bytes, accs) is Ok ==> accs.len() == count
            &&& reads is Ok && accs.len() == count ==> decode(schema, bytes, accs) is Ok
            &&& (forall|i: int| 0 <= i < accs.len() ==> accs[i] != Accessor::Text) && 8
                * accs.len() <= bytes.len() && accs.len() <= count ==> reads is Ok
        }),
{
    let schema = Seq::new(count, |i: int| Chunks::Any);
    lemma_any_reads(ReaderModel::start(schema, bytes), accs);
}

/// A field that fits its chunk cannot be read from a proper prefix of its bytes:
/// the read is out of bounds.
pub proof fn lemma_step_truncated(chunk: Chunks, field: Field, cut: nat)
    requires
        fits(chunk, field),
        cut < wire_at(chunk, field).len(),
    ensures
        read_step(field.accessor(), false, Some(chunk), wire_at(chunk, field).take(cut as int))
            == Err::<Taken, _>(MessageError::OutOfBounds),
{
    reveal(read_step);
    let wire = wire_at(chunk, field);
    let short = wire.take(cut as int);
    lemma_pow256_values();
    match field {
        Field::Int(v) => {
            lemma_be_bytes_len(crate::wire::twos_complement(v), chunk->Int_size as nat);
        },
        Field::Uint(v) => {
            lemma_be_bytes_len(v as nat, chunk->Uint_size as nat);
        },
        Field::Float(bits) => {
            lemma_be_bytes_len(bits as nat, 8);
        },
        Field::Text(s) => {
            let payload = encode_utf8(s);
            lemma_be_bytes_len(payload.len(), 8);
            lemma_unsigned_round_trip(payload.len(), 8);
            if cut >= 8 {
                assert(short.take(8) =~= be_bytes(payload.len(), 8));
            }
        },
        Field::Binary(b) => {
            lemma_be_bytes_len(b.len(), 8);
            lemma_unsigned_round_trip(b.len(), 8);
            if cut >= 8 {
                assert(short.take(8) =~= be_bytes(b.len(), 8));
            }
        },
        Field::Bool(b) => {},
    }
}

/// A checked reader in use, standing before a proper prefix of the wire forms of
/// fields that fit the schema, runs out of bounds.
pub proof fn lemma_read_truncated(r: ReaderModel, fields: Seq<Field>, cut: nat)
    requires
        !r.unchecked,
        r.active(),
        r.chunk + fields.len() <= r.schema.len(),
        forall|i: int| 0 <= i < fields.len() ==> fits(r.schema[r.chunk + i], #[trigger] fields[i]),
        r.byte <= r.bytes.len(),
        cut < wire_span(r.schema, r.chunk, fields).len(),
        r.remaining() == wire_span(r.schema, r.chunk, fields).take(cut as int),
    ensures
        read_all(r, accessors(fields)) == Err::<(ReaderModel, Seq<Field>), _>(
            MessageError::OutOfBounds,
        ),
    decreases fields.len(),
{
    let accs = accessors(fields);
    let chunk = r.schema[r.chunk as int];
    let rest = fields.drop_first();
    let wire = wire_at(chunk, fields[0]);
    let later = wire_span(r.schema, r.chunk + 1, rest);
    if cut < wire.len() {
        lemma_step_truncated(chunk, fields[0], cut);
        assert(r.remaining() =~= wire.take(cut as int));
    } else {
        let left = (cut - wire.len()) as nat;
        assert(r.remaining() =~= wire + later.take(left as int));
        lemma_step_round_trip(chunk, fields[0], later.take(left as int));
        let next = r.after(r.find(accs[0]));
        assert(next.remaining() =~= r.remaining().skip(wire.len() as int));
        assert(next.remaining() =~= later.take(left as int));
        assert forall|i: int| 0 <= i < rest.len() implies fits(
            next.schema[next.chunk + i],
            #[trigger] rest[i],
        ) by {
            assert(rest[i] == fields[i + 1]);
        }
        lemma_read_truncated(next, rest, left);
        assert(accs.drop_first() =~= accessors(rest));
    }
}

/// Truncation safety: what conforms to a schema, encoded and then cut short
/// anywhere, does not decode: the decode ends out of bounds.
pub proof fn theorem_truncation(schema: Seq<Chunks>, fields: Seq<Field>, cut: nat)
    requires
        conforms(schema, fields),
        cut < wire_span(schema, 0, fields).len(),
    ensures
        decode(schema, wire_span(schema, 0, fields).take(cut as int), accessors(fields)) == Err::<
            Seq<Field>,
            _,
        >(MessageError::OutOfBounds),
{
    let short = wire_span(schema, 0, fields).take(cut as int);
    let r = ReaderModel::start(schema, short);
    assert(r.remaining() =~= short);
    lemma_read_truncated(r, fields, cut);
}

} // verus!
