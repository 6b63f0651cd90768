//! The codec as mathematics: what one write appends and what one read takes.
//!
//! The writer and the reader state their contracts over the functions of this
//! module, and the laws of the codec are proved about them.

use crate::error::MessageError;
use crate::schema::Chunks;
use crate::wire::{
    be_bytes, be_signed, be_value, fits_signed, fits_unsigned, pow256, twos_complement,
};
use vstd::prelude::*;
use vstd::utf8::{decode_utf8, encode_utf8, valid_utf8};

verus! {

/// The six ways to ask for a field.
#[derive(Debug, Clone, Copy, PartialEq, Eq, Structural)]
pub enum Accessor {
    Int,
    Float,
    Uint,
    Text,
    Binary,
    Bool,
}

/// A field value. A float is held as its 64-bit pattern.
pub enum Field {
    Int(i64),
    Float(u64),
    Uint(u64),
    Text(Seq<char>),
    Binary(Seq<u8>),
    Bool(bool),
}

impl Field {
    /// The accessor that writes and reads this kind of value.
    pub open spec fn accessor(self) -> Accessor {
        match self {
            Field::Int(_) => Accessor::Int,
            Field::Float(_) => Accessor::Float,
            Field::Uint(_) => Accessor::Uint,
            Field::Text(_) => Accessor::Text,
            Field::Binary(_) => Accessor::Binary,
            Field::Bool(_) => Accessor::Bool,
        }
    }
}

/// How a field lies in the bytes.
#[derive(Debug, Clone, Copy, PartialEq, Eq, Structural)]
pub enum Layout {
    /// This many bytes, no more.
    Fixed(usize),
    /// An 8-byte big-endian length, then that many bytes.
    Prefixed,
}

/// The layout an accessor uses when no schema is consulted.
pub open spec fn natural_layout(acc: Accessor) -> Layout {
    match acc {
        Accessor::Int | Accessor::Float | Accessor::Uint => Layout::Fixed(8),
        Accessor::Text | Accessor::Binary => Layout::Prefixed,
        Accessor::Bool => Layout::Fixed(1),
    }
}

/// The layout that `chunk` gives to `acc`, if `chunk` is of the accessor's own
/// kind and well formed.
pub open spec fn exact_layout(acc: Accessor, chunk: Chunks) -> Option<Layout> {
    match (chunk, acc) {
        (Chunks::Int { size }, Accessor::Int) => if 1 <= size <= 8 {
            Some(Layout::Fixed(size as usize))
        } else {
            None
        },
        (Chunks::Uint { size }, Accessor::Uint) => if 1 <= size <= 8 {
            Some(Layout::Fixed(size as usize))
        } else {
            None
        },
        (Chunks::Float, Accessor::Float) => Some(Layout::Fixed(8)),
        (Chunks::String, Accessor::Text) => Some(Layout::Prefixed),
        (Chunks::Binary, Accessor::Binary) => Some(Layout::Prefixed),
        (Chunks::Bool, Accessor::Bool) => Some(Layout::Fixed(1)),
        _ => None,
    }
}

/// The layout for writing with `acc` at `slot`. Without a schema check every
/// accessor uses its natural layout; with it the slot must be of the accessor's
/// kind. `None` is a schema mismatch.
pub open spec fn write_layout(acc: Accessor, unchecked: bool, slot: Option<Chunks>) -> Option<
    Layout,
> {
    if unchecked {
        Some(natural_layout(acc))
    } else {
        match slot {
            Some(chunk) => exact_layout(acc, chunk),
            None => None,
        }
    }
}

/// The layout for reading with `acc` at `slot`: as for writing, but a wildcard
/// slot serves every accessor with eight raw bytes.
pub open spec fn read_layout(acc: Accessor, unchecked: bool, slot: Option<Chunks>) -> Option<
    Layout,
> {
    if unchecked {
        Some(natural_layout(acc))
    } else {
        match slot {
            Some(chunk) => if chunk.is_wildcard() {
                Some(Layout::Fixed(8))
            } else {
                exact_layout(acc, chunk)
            },
            None => None,
        }
    }
}

/// The layout for skipping over `slot`. Skipping always goes by the schema.
pub open spec fn skip_layout(slot: Option<Chunks>) -> Option<Layout> {
    match slot {
        Some(Chunks::Int { size }) => exact_layout(Accessor::Int, Chunks::Int { size }),
        Some(Chunks::Uint { size }) => exact_layout(Accessor::Uint, Chunks::Uint { size }),
        Some(Chunks::Float) => Some(Layout::Fixed(8)),
        Some(Chunks::String) => Some(Layout::Prefixed),
        Some(Chunks::Binary) => Some(Layout::Prefixed),
        Some(Chunks::Bool) => Some(Layout::Fixed(1)),
        Some(Chunks::Any) => Some(Layout::Fixed(8)),
        Some(Chunks::Rest) => Some(Layout::Fixed(8)),
        None => None,
    }
}

/// By how much a successful step moves the schema cursor: by one, except that an
/// unchecked step and a step at a `Rest` slot leave it where it is.
pub open spec fn slots_taken(unchecked: bool, slot: Option<Chunks>) -> nat {
    if unchecked || slot == Some(Chunks::Rest) {
        0
    } else {
        1
    }
}

/// A byte string behind its 8-byte big-endian length.
pub open spec fn prefixed(payload: Seq<u8>) -> Seq<u8> {
    be_bytes(payload.len(), 8) + payload
}

/// The bytes that hold `field`, before any length prefix: a number in as many
/// bytes as `layout` fixes, text as UTF-8.
pub open spec fn payload_of(field: Field, layout: Layout) -> Seq<u8> {
    match field {
        Field::Int(v) => be_bytes(twos_complement(v), layout->Fixed_0 as nat),
        Field::Float(bits) => be_bytes(bits as nat, layout->Fixed_0 as nat),
        Field::Uint(v) => be_bytes(v as nat, layout->Fixed_0 as nat),
        Field::Text(s) => encode_utf8(s),
        Field::Binary(b) => b,
        Field::Bool(b) => seq![if b { 1u8 } else { 0u8 }],
    }
}

/// The bytes that writing `field` in `layout` appends.
pub open spec fn wire_form(field: Field, layout: Layout) -> Seq<u8> {
    match layout {
        Layout::Fixed(_) => payload_of(field, layout),
        Layout::Prefixed => prefixed(payload_of(field, layout)),
    }
}

/// What one successful write appends and by how much it moves the schema cursor.
pub struct Written {
    pub bytes: Seq<u8>,
    pub slots: nat,
}

/// One write of `field` at `slot`.
pub open spec fn write_step(field: Field, unchecked: bool, slot: Option<Chunks>) -> Result<
    Written,
    MessageError,
> {
    match write_layout(field.accessor(), unchecked, slot) {
        None => Err(MessageError::SchemaMismatch),
        Some(layout) => Ok(
            Written { bytes: wire_form(field, layout), slots: slots_taken(unchecked, slot) },
        ),
    }
}

/// The stretch of `rest` that a field in `layout` occupies: its payload, and the
/// count of bytes that the whole field takes. Fails where `rest` ends too early.
pub open spec fn span(layout: Layout, rest: Seq<u8>) -> Result<(Seq<u8>, nat), MessageError> {
    match layout {
        Layout::Fixed(width) => if rest.len() < width {
            Err(MessageError::OutOfBounds)
        } else {
            Ok((rest.take(width as int), width as nat))
        },
        Layout::Prefixed => if rest.len() < 8 {
            Err(MessageError::OutOfBounds)
        } else {
            let len = be_value(rest.take(8));
            if rest.len() - 8 < len {
                Err(MessageError::OutOfBounds)
            } else {
                Ok((rest.subrange(8, 8 + len as int), 8 + len))
            }
        },
    }
}

/// The value that `acc` makes of a payload.
///
/// A signed number is sign-extended from its width. A boolean is true unless the
/// first byte is zero. Text must be UTF-8.
pub open spec fn field_of(acc: Accessor, payload: Seq<u8>) -> Result<Field, MessageError> {
    match acc {
        Accessor::Int => Ok(Field::Int(be_signed(payload) as i64)),
        Accessor::Float => Ok(Field::Float(be_value(payload) as u64)),
        Accessor::Uint => Ok(Field::Uint(be_value(payload) as u64)),
        Accessor::Text => if valid_utf8(payload) {
            Ok(Field::Text(decode_utf8(payload)))
        } else {
            Err(MessageError::InvalidUtf8)
        },
        Accessor::Binary => Ok(Field::Binary(payload)),
        Accessor::Bool => Ok(Field::Bool(payload.len() > 0 && payload[0] != 0)),
    }
}

/// What one successful read or skip takes: the value, the bytes it covers and by
/// how much it moves the schema cursor.
pub struct Taken {
    pub value: Field,
    pub bytes: nat,
    pub slots: nat,
}

/// The payload of the next field and the count of bytes that the field takes.
/// No layout means that the schema refused the request.
pub open spec fn payload_step(layout: Option<Layout>, rest: Seq<u8>) -> Result<
    (Seq<u8>, nat),
    MessageError,
> {
    match layout {
        None => Err(MessageError::SchemaMismatch),
        Some(layout) => span(layout, rest),
    }
}

/// One read with `acc` at `slot`, from the bytes `rest` that are still unread.
///
/// The schema is checked first, then the bounds, then the content.
#[verifier::opaque]
pub open spec fn read_step(acc: Accessor, unchecked: bool, slot: Option<Chunks>, rest: Seq<u8>)
    -> Result<Taken, MessageError> {
    match payload_step(read_layout(acc, unchecked, slot), rest) {
        Err(e) => Err(e),
        Ok((payload, bytes)) => match field_of(acc, payload) {
            Err(e) => Err(e),
            Ok(value) => Ok(Taken { value, bytes, slots: slots_taken(unchecked, slot) }),
        },
    }
}

/// One skip over `slot`: it takes the bytes of the chunk there, and yields them
/// undecoded. A skip always goes by the schema.
pub open spec fn skip_step(slot: Option<Chunks>, rest: Seq<u8>) -> Result<Taken, MessageError> {
    match payload_step(skip_layout(slot), rest) {
        Err(e) => Err(e),
        Ok((payload, bytes)) => Ok(
            Taken { value: Field::Binary(payload), bytes, slots: slots_taken(false, slot) },
        ),
    }
}

/// One move of the schema cursor alone: it takes no bytes and one schema
/// position, whatever stands there, be it nothing.
pub open spec fn advance_step() -> Taken {
    Taken { value: Field::Binary(Seq::empty()), bytes: 0, slots: 1 }
}

/// `field` is of the kind that `chunk` declares, and `chunk` is well formed. A
/// checked writer accepts exactly such fields; no field is accepted at a wildcard.
pub open spec fn accepts(chunk: Chunks, field: Field) -> bool {
    exact_layout(field.accessor(), chunk) is Some
}

/// `field` is accepted at `chunk` and is written there without loss: a number
/// lies within the declared width, and a length within eight bytes.
pub open spec fn fits(chunk: Chunks, field: Field) -> bool {
    &&& accepts(chunk, field)
    &&& match (chunk, field) {
        (Chunks::Int { size }, Field::Int(v)) => fits_signed(v as int, size as nat),
        (Chunks::Uint { size }, Field::Uint(v)) => fits_unsigned(v as int, size as nat),
        (_, Field::Text(s)) => encode_utf8(s).len() < pow256(8),
        (_, Field::Binary(b)) => b.len() < pow256(8),
        _ => true,
    }
}

/// One value for each chunk of the schema, each fitting its chunk.
pub open spec fn conforms(schema: Seq<Chunks>, fields: Seq<Field>) -> bool {
    &&& fields.len() == schema.len()
    &&& forall|i: int| 0 <= i < fields.len() ==> fits(schema[i], #[trigger] fields[i])
}

/// The bytes of `field` as a checked writer puts them at `chunk`.
pub open spec fn wire_at(chunk: Chunks, field: Field) -> Seq<u8> {
    wire_form(field, exact_layout(field.accessor(), chunk)->Some_0)
}

/// The bytes of `fields`, written one after the other from schema position `at`.
pub open spec fn wire_span(schema: Seq<Chunks>, at: nat, fields: Seq<Field>) -> Seq<u8>
    decreases fields.len(),
{
    if fields.len() == 0 {
        Seq::empty()
    } else {
        wire_at(schema[at as int], fields[0]) + wire_span(schema, at + 1, fields.drop_first())
    }
}

/// The accessors that `fields` are written and read with.
pub open spec fn accessors(fields: Seq<Field>) -> Seq<Accessor> {
    Seq::new(fields.len(), |i: int| fields[i].accessor())
}

impl Accessor {
    /// The layout this accessor uses when no schema is consulted.
    pub fn natural(self) -> (layout: Layout)
        ensures
            layout == natural_layout(self),
    {
        match self {
            Accessor::Int | Accessor::Float | Accessor::Uint => Layout::Fixed(8),
            Accessor::Text | Accessor::Binary => Layout::Prefixed,
            Accessor::Bool => Layout::Fixed(1),
        }
    }

    /// The layout that `chunk` gives to this accessor, if it is of the accessor's
    /// own kind and well formed.
    pub fn exact(self, chunk: Chunks) -> (layout: Option<Layout>)
        ensures
            layout == exact_layout(self, chunk),
    {
        match (chunk, self) {
            (Chunks::Int { size }, Accessor::Int) => if 1 <= size && size <= 8 {
                Some(Layout::Fixed(size as usize))
            } else {
                None
            },
            (Chunks::Uint { size }, Accessor::Uint) => if 1 <= size && size <= 8 {
                Some(Layout::Fixed(size as usize))
            } else {
                None
            },
            (Chunks::Float, Accessor::Float) => Some(Layout::Fixed(8)),
            (Chunks::String, Accessor::Text) => Some(Layout::Prefixed),
            (Chunks::Binary, Accessor::Binary) => Some(Layout::Prefixed),
            (Chunks::Bool, Accessor::Bool) => Some(Layout::Fixed(1)),
            _ => None,
        }
    }
}

} // verus!
