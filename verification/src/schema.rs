//! Chunk kinds and the fixed schemas of every message and record.

use vstd::prelude::*;

verus! {

/// One typed field position of a schema.
#[derive(Debug, Clone, Copy, PartialEq, Eq, Structural)]
pub enum Chunks {
    /// Signed integer of `size` bytes, one to eight.
    Int { size: u8 },
    /// IEEE-754 double, 8 bytes.
    Float,
    /// Unsigned integer of `size` bytes, one to eight.
    Uint { size: u8 },
    /// 8-byte length, then that many bytes of UTF-8.
    String,
    /// 8-byte length, then that many raw bytes.
    Binary,
    /// One byte, zero for false.
    Bool,
    /// Eight raw bytes, read by any accessor; fills one schema position.
    Any,
    /// Eight raw bytes per read, any number of times; never fills its position.
    Rest,
}

impl Chunks {
    /// A wildcard takes any accessor.
    pub open spec fn is_wildcard(self) -> bool {
        self is Any || self is Rest
    }
}

/// An ordered list of chunks: the layout of one message or record.
#[derive(Debug)]
pub struct ConnectionProtocol {
    pub chunks: Vec<Chunks>,
}

impl View for ConnectionProtocol {
    type V = Seq<Chunks>;

    open spec fn view(&self) -> Seq<Chunks> {
        self.chunks@
    }
}

/// Outer envelope of every message: the tag, then the body.
pub open spec fn container_spec() -> Seq<Chunks> {
    seq![Chunks::Uint { size: 8 }, Chunks::Binary]
}

/// A persisted user: name, password digest, id, friend ids, quote, funds, cards.
pub open spec fn db_user_spec() -> Seq<Chunks> {
    seq![
        Chunks::String,
        Chunks::Binary,
        Chunks::Uint { size: 8 },
        Chunks::Binary,
        Chunks::String,
        Chunks::Uint { size: 8 },
        Chunks::Binary,
    ]
}

/// One owned card of a persisted user: card id, amount.
pub open spec fn db_owned_card_spec() -> Seq<Chunks> {
    seq![Chunks::Uint { size: 8 }, Chunks::Uint { size: 1 }]
}

/// What a client learns after login: name, friends, funds, status, quote.
pub open spec fn client_data_spec() -> Seq<Chunks> {
    seq![
        Chunks::String,
        Chunks::Binary,
        Chunks::Uint { size: 8 },
        Chunks::Uint { size: 8 },
        Chunks::String,
    ]
}

/// One friend inside the client data: name, quote, status.
pub open spec fn friend_summary_spec() -> Seq<Chunks> {
    seq![Chunks::String, Chunks::String, Chunks::Uint { size: 1 }]
}

/// Login and registration: name, password digest.
pub open spec fn login_spec() -> Seq<Chunks> {
    seq![Chunks::String, Chunks::Binary]
}

/// Saved client options: name, password, auto-login flag, server address.
pub open spec fn load_spec() -> Seq<Chunks> {
    seq![Chunks::String, Chunks::String, Chunks::Bool, Chunks::String]
}

/// Status replies: id, whether data follows, the data.
pub open spec fn status_spec() -> Seq<Chunks> {
    seq![Chunks::Uint { size: 8 }, Chunks::Bool, Chunks::Binary]
}

/// Free-form trailing data, eight bytes at a time.
pub open spec fn dynamic_spec() -> Seq<Chunks> {
    seq![Chunks::Rest]
}

pub fn container() -> (s: Vec<Chunks>)
    ensures
        s@ == container_spec(),
{
    vec![Chunks::Uint { size: 8 }, Chunks::Binary]
}

pub fn db_user() -> (s: Vec<Chunks>)
    ensures
        s@ == db_user_spec(),
{
    vec![
        Chunks::String,
        Chunks::Binary,
        Chunks::Uint { size: 8 },
        Chunks::Binary,
        Chunks::String,
        Chunks::Uint { size: 8 },
        Chunks::Binary,
    ]
}

pub fn db_owned_card() -> (s: Vec<Chunks>)
    ensures
        s@ == db_owned_card_spec(),
{
    vec![Chunks::Uint { size: 8 }, Chunks::Uint { size: 1 }]
}

pub fn client_data() -> (s: Vec<Chunks>)
    ensures
        s@ == client_data_spec(),
{
    vec![
        Chunks::String,
        Chunks::Binary,
        Chunks::Uint { size: 8 },
        Chunks::Uint { size: 8 },
        Chunks::String,
    ]
}

pub fn friend_summary() -> (s: Vec<Chunks>)
    ensures
        s@ == friend_summary_spec(),
{
    vec![Chunks::String, Chunks::String, Chunks::Uint { size: 1 }]
}

pub fn login() -> (s: Vec<Chunks>)
    ensures
        s@ == login_spec(),
{
    vec![Chunks::String, Chunks::Binary]
}

pub fn load() -> (s: Vec<Chunks>)
    ensures
        s@ == load_spec(),
{
    vec![Chunks::String, Chunks::String, Chunks::Bool, Chunks::String]
}

pub fn status() -> (s: Vec<Chunks>)
    ensures
        s@ == status_spec(),
{
    vec![Chunks::Uint { size: 8 }, Chunks::Bool, Chunks::Binary]
}

pub fn dynamic() -> (s: Vec<Chunks>)
    ensures
        s@ == dynamic_spec(),
{
    vec![Chunks::Rest]
}

} // verus!
