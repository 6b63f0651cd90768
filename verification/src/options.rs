//! The client's saved options: name, password digest, whether to log in at
//! once, and the server's address.
//!
//! The layout of the options declares the password as text. The options hold
//! its digest, which is bytes, and bytes are not accepted where the layout wants
//! text: saving stops at the digest with a schema mismatch, and so does loading,
//! if the name before it was in order.

use crate::error::MessageError;
use crate::model::{accepts, Accessor, Field};
use crate::reader::{lemma_read_all_first, read_all, ConnectionReader, ReaderModel};
use crate::schema::{load, load_spec};
use crate::theorems::{all_accepted, theorem_writer_completeness};
use crate::writer::{encode, write_all, ConnectionWriter};
use vstd::prelude::*;

verus! {

/// The accessors that options are read with: name, digest, flag, address.
pub open spec fn options_accessors() -> Seq<Accessor> {
    seq![Accessor::Text, Accessor::Binary, Accessor::Bool, Accessor::Text]
}

/// The fields that options are written as: name, digest, flag, address.
pub open spec fn options_fields(
    username: Seq<char>,
    password: Seq<u8>,
    auto_login: bool,
    server_ip: Seq<char>,
) -> Seq<Field> {
    seq![
        Field::Text(username),
        Field::Binary(password),
        Field::Bool(auto_login),
        Field::Text(server_ip),
    ]
}

/// The options that a checked reader on the options layout takes from `bytes`
/// with the four accessors in order. It is not finalized.
pub open spec fn parse_options(bytes: Seq<u8>) -> Result<
    (Seq<char>, Seq<u8>, bool, Seq<char>),
    MessageError,
> {
    match read_all(ReaderModel::start(load_spec(), bytes), options_accessors()) {
        Err(e) => Err(e),
        Ok((_, fields)) => Ok(
            (fields[0]->Text_0, fields[1]->Binary_0, fields[2]->Bool_0, fields[3]->Text_0),
        ),
    }
}

/// Options never fit their layout: the digest is refused where the layout wants
/// text. So encoding is a schema mismatch, and decoding fails whatever the bytes.
pub proof fn theorem_options_do_not_fit(
    username: Seq<char>,
    password: Seq<u8>,
    auto_login: bool,
    server_ip: Seq<char>,
    bytes: Seq<u8>,
)
    ensures
        encode(load_spec(), options_fields(username, password, auto_login, server_ip)) == Err::<
            Seq<u8>,
            _,
        >(MessageError::SchemaMismatch),
        parse_options(bytes) is Err,
{
    let fields = options_fields(username, password, auto_login, server_ip);
    assert(!accepts(load_spec()[1], fields[1]));
    assert(!all_accepted(load_spec(), fields));
    theorem_writer_completeness(load_spec(), fields);
    let start = ReaderModel::start(load_spec(), bytes);
    let accs = options_accessors();
    lemma_read_all_first(start, accs);
    if let Ok(taken) = start.find(accs[0]) {
        crate::theorems::lemma_read_shape(start, accs[0]);
        let next = start.after(Ok(taken));
        lemma_read_all_first(next, accs.drop_first());
        reveal(crate::model::read_step);
    }
}

/// Encodes options by their layout.
pub fn encode_options(username: &str, password: &[u8], auto_login: bool, server_ip: &str) -> (r:
    Result<Vec<u8>, MessageError>)
    ensures
        match encode(load_spec(), options_fields(username@, password@, auto_login, server_ip@)) {
            Ok(bytes) => r matches Ok(b) && b@ == bytes,
            Err(e) => r matches Err(x) && x == e,
        },
{
    proof {
        reveal_with_fuel(write_all, 5);
    }
    let mut writer = ConnectionWriter::new(load());
    writer.write_string(username)?;
    writer.write_binary(password)?;
    writer.write_bool(auto_login)?;
    writer.write_string(server_ip)?;
    writer.finalize()
}

/// Decodes options by their layout: name, digest, flag, address.
pub fn decode_options(bytes: &[u8]) -> (r: Result<(String, Vec<u8>, bool, String), MessageError>)
    ensures
        match parse_options(bytes@) {
            Ok((username, password, auto_login, server_ip)) => r matches Ok((u, p, a, s)) && u@
                == username && p@ == password && a == auto_login && s@ == server_ip,
            Err(e) => r matches Err(x) && x == e,
        },
{
    let mut reader = ConnectionReader::new(load(), bytes);
    let ghost mut accs = options_accessors();
    proof {
        lemma_read_all_first(reader@, accs);
    }
    let username = reader.read_string()?;
    proof {
        accs = accs.drop_first();
        lemma_read_all_first(reader@, accs);
    }
    let password = reader.read_binary()?;
    proof {
        accs = accs.drop_first();
        lemma_read_all_first(reader@, accs);
    }
    let auto_login = reader.read_bool()?;
    proof {
        accs = accs.drop_first();
        lemma_read_all_first(reader@, accs);
    }
    let server_ip = reader.read_string()?;
    proof {
        accs = accs.drop_first();
        assert(read_all(reader@, accs) == Ok::<_, MessageError>(
            (reader@, Seq::<Field>::empty()),
        ));
    }
    Ok((username, password, auto_login, server_ip))
}

} // verus!
