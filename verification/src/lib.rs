//! A schema-driven binary codec and the protocol of a small card game on top of
//! it.
//!
//! A schema is an ordered list of chunks. The [`writer`] appends fields to a
//! buffer and the [`reader`] takes them out of a byte slice, each checking every
//! field against the schema: integers of one to eight bytes, big-endian; doubles;
//! text and byte strings behind an 8-byte length; booleans; and wildcards of
//! eight raw bytes. What both do is defined in [`model`], and what holds of whole
//! schemas written and read back is proved in [`theorems`].
//!
//! On top of the codec stand the messages of the protocol in their tagged
//! container ([`message`]), the persisted users as records back to back
//! ([`store`]), the server's answers ([`server`]) and the client's reading of
//! them ([`client`]); [`round_trip`] proves that each of these formats survives
//! being encoded and decoded again. [`login`] holds the rules for names and
//! passwords, [`options`] the client's saved options, and [`termui`] what a line
//! typed at a terminal means.

pub mod client;
pub mod error;
pub mod login;
pub mod message;
pub mod model;
pub mod options;
pub mod reader;
pub mod round_trip;
pub mod schema;
pub mod server;
pub mod status;
pub mod store;
pub mod termui;
pub mod text;
pub mod theorems;
pub mod wire;
pub mod writer;
