//! Messages: a tag, a body laid out by the schema of the tag's kind.

use crate::error::MessageError;
use crate::model::{accessors, wire_span, Accessor, Field};
use crate::reader::{
    decode, decode_prefix, lemma_read_all_first, read_all, ConnectionReader, ReaderModel,
};
use crate::schema::{
    client_data, client_data_spec, container, container_spec, friend_summary,
    friend_summary_spec, login, login_spec, status, status_spec,
};
use crate::status::PlayerStatus;
use crate::writer::ConnectionWriter;
use vstd::prelude::*;
use vstd::slice::slice_subrange;

verus! {

/// What a player shows of a friend.
pub struct FriendSummary {
    pub username: String,
    pub quote: String,
    pub status: PlayerStatus,
}

/// A friend as the client data lists it.
#[derive(Debug, PartialEq)]
pub struct Friend {
    pub username: String,
    pub status: PlayerStatus,
    pub quote: String,
}

/// A friend as the contracts see it.
pub struct FriendView {
    pub username: Seq<char>,
    pub status: PlayerStatus,
    pub quote: Seq<char>,
}

impl View for Friend {
    type V = FriendView;

    open spec fn view(&self) -> FriendView {
        FriendView { username: self.username@, status: self.status, quote: self.quote@ }
    }
}

/// In a record stream a record that ends too early means a corrupt stream; any
/// other error is the record's own.
pub open spec fn stream_error(e: MessageError) -> MessageError {
    if e == MessageError::OutOfBounds {
        MessageError::CorruptRecordStream
    } else {
        e
    }
}

/// The exec form of `stream_error`.
pub fn as_stream_error(e: MessageError) -> (r: MessageError)
    ensures
        r == stream_error(e),
{
    match e {
        MessageError::OutOfBounds => MessageError::CorruptRecordStream,
        other => other,
    }
}

impl FriendView {
    /// The fields of a friend record, in schema order: name, quote, status.
    pub open spec fn fields(self) -> Seq<Field> {
        seq![Field::Text(self.username), Field::Text(self.quote), Field::Uint(self.status.code())]
    }

    /// The friend that the fields of one record make, if the status is one.
    pub open spec fn of_fields(fields: Seq<Field>) -> Result<FriendView, MessageError> {
        match PlayerStatus::of_code(fields[2]->Uint_0) {
            None => Err(MessageError::InvalidStatus),
            Some(status) => Ok(
                FriendView { username: fields[0]->Text_0, status, quote: fields[1]->Text_0 },
            ),
        }
    }

    /// One friend record.
    pub open spec fn wire(self) -> Seq<u8> {
        wire_span(friend_summary_spec(), 0, self.fields())
    }

    /// The friend as it comes back from the wire.
    pub open spec fn timeless(self) -> FriendView {
        FriendView { status: self.status.timeless(), ..self }
    }
}

/// The accessors that read one friend record.
pub open spec fn friend_accessors() -> Seq<Accessor> {
    seq![Accessor::Text, Accessor::Text, Accessor::Uint]
}

/// The friend at the front of `bytes`, and the count of bytes that its record
/// takes.
pub open spec fn parse_friend(bytes: Seq<u8>) -> Result<(FriendView, nat), MessageError> {
    match decode_prefix(friend_summary_spec(), bytes, friend_accessors()) {
        Err(e) => Err(e),
        Ok((fields, used)) => match FriendView::of_fields(fields) {
            Err(e) => Err(e),
            Ok(friend) => Ok((friend, used)),
        },
    }
}

/// Friend records back to back, with no count before them and nothing between.
pub open spec fn friends_wire(friends: Seq<FriendView>) -> Seq<u8>
    decreases friends.len(),
{
    if friends.len() == 0 {
        Seq::empty()
    } else {
        friends[0].wire() + friends_wire(friends.drop_first())
    }
}

/// The friends that `blob` holds back to back. The list ends where the bytes
/// end; bytes that end inside a record are a corrupt stream.
pub open spec fn parse_friends(blob: Seq<u8>) -> Result<Seq<FriendView>, MessageError>
    decreases blob.len(),
{
    if blob.len() == 0 {
        Ok(Seq::empty())
    } else {
        match parse_friend(blob) {
            Err(e) => Err(stream_error(e)),
            Ok((friend, used)) => if 0 < used <= blob.len() {
                match parse_friends(blob.skip(used as int)) {
                    Err(e) => Err(e),
                    Ok(rest) => Ok(seq![friend] + rest),
                }
            } else {
                Err(MessageError::CorruptRecordStream)
            },
        }
    }
}

/// Encodes one friend record.
pub fn encode_friend(friend: &Friend) -> (bytes: Vec<u8>)
    ensures
        bytes@ == friend@.wire(),
{
    let mut writer = ConnectionWriter::new(friend_summary());
    writer.write_string(friend.username.as_str()).unwrap();
    writer.write_string(friend.quote.as_str()).unwrap();
    writer.write_uint(friend.status.to_uint()).unwrap();
    proof {
        reveal_with_fuel(wire_span, 4);
        assert(writer@.bytes =~= friend@.wire());
    }
    writer.finalize().unwrap()
}

/// Decodes the friend record at the front of `bytes`; says how many bytes it
/// took.
pub fn decode_friend(bytes: &[u8]) -> (r: Result<(Friend, usize), MessageError>)
    ensures
        match parse_friend(bytes@) {
            Ok((friend, used)) => r matches Ok((f, n)) && f@ == friend && n == used && 0 < n
                <= bytes@.len(),
            Err(e) => r matches Err(x) && x == e,
        },
{
    let mut reader = ConnectionReader::new(friend_summary(), bytes);
    proof {
        reveal_with_fuel(read_all, 4);
        crate::theorems::lemma_read_all_within(reader@, friend_accessors());
    }
    let username = reader.read_string()?;
    let quote = reader.read_string()?;
    let code = reader.read_uint()?;
    reader.finalize()?;
    match PlayerStatus::from_uint(code) {
        None => Err(MessageError::InvalidStatus),
        Some(status) => Ok((Friend { username, status, quote }, reader.current_byte)),
    }
}

/// The friends of a list as the contracts see them.
pub open spec fn friend_views(friends: Seq<Friend>) -> Seq<FriendView> {
    Seq::new(friends.len(), |i: int| friends[i]@)
}

/// A record appended to a stream is appended to its bytes.
pub proof fn lemma_friends_wire_push(friends: Seq<FriendView>, friend: FriendView)
    ensures
        friends_wire(friends.push(friend)) == friends_wire(friends) + friend.wire(),
    decreases friends.len(),
{
    let all = friends.push(friend);
    if friends.len() == 0 {
        assert(all.drop_first() =~= friends);
        assert(friends_wire(friends) =~= Seq::<u8>::empty());
        assert(friends_wire(all) =~= friend.wire());
        assert(friends_wire(friends) + friend.wire() =~= friend.wire());
    } else {
        assert(all.drop_first() =~= friends.drop_first().push(friend));
        lemma_friends_wire_push(friends.drop_first(), friend);
        assert(friends_wire(all) =~= friends_wire(friends) + friend.wire());
    }
}

/// Encodes friends back to back.
pub fn encode_friends(friends: &Vec<Friend>) -> (bytes: Vec<u8>)
    ensures
        bytes@ == friends_wire(friend_views(friends@)),
{
    let ghost views = friend_views(friends@);
    let mut bytes: Vec<u8> = Vec::new();
    let mut i: usize = 0;
    while i < friends.len()
        invariant
            i <= friends.len(),
            views == friend_views(friends@),
            bytes@ == friends_wire(views.take(i as int)),
        decreases friends.len() - i,
    {
        let record = encode_friend(&friends[i]);
        let ghost before = bytes@;
        bytes.extend_from_slice(record.as_slice());
        proof {
            assert(bytes@ =~= before + record@);
            assert(views.take(i + 1) =~= views.take(i as int).push(views[i as int]));
            lemma_friends_wire_push(views.take(i as int), views[i as int]);
        }
        i += 1;
    }
    proof {
        assert(views.take(i as int) =~= views);
    }
    bytes
}

/// The outcome of a stream, given the records that stand before its unread part
/// and the outcome of that part.
pub open spec fn behind<T>(done: Seq<T>, rest: Result<Seq<T>, MessageError>) -> Result<
    Seq<T>,
    MessageError,
> {
    match rest {
        Err(e) => Err(e),
        Ok(more) => Ok(done + more),
    }
}

/// Decodes friends that stand back to back, to the end of `blob`.
pub fn decode_friends(blob: &[u8]) -> (r: Result<Vec<Friend>, MessageError>)
    ensures
        match parse_friends(blob@) {
            Ok(friends) => r matches Ok(list) && friend_views(list@) == friends,
            Err(e) => r matches Err(x) && x == e,
        },
{
    let mut friends: Vec<Friend> = Vec::new();
    let mut offset: usize = 0;
    let len = blob.len();
    proof {
        assert(blob@.skip(0) =~= blob@);
        assert(friend_views(friends@) + Seq::<FriendView>::empty() =~= friend_views(friends@));
        assert(friend_views(friends@) =~= Seq::<FriendView>::empty());
    }
    while offset < len
        invariant
            offset <= len == blob@.len(),
            parse_friends(blob@) == behind(
                friend_views(friends@),
                parse_friends(blob@.skip(offset as int)),
            ),
        decreases len - offset,
    {
        let ghost rest = blob@.skip(offset as int);
        let ghost done = friend_views(friends@);
        let tail = slice_subrange(blob, offset, len);
        assert(tail@ =~= rest);
        match decode_friend(tail) {
            Err(e) => {
                return Err(as_stream_error(e));
            },
            Ok((friend, used)) => {
                proof {
                    assert(rest.skip(used as int) =~= blob@.skip(offset + used));
                    let ghost later = parse_friends(rest.skip(used as int));
                    assert(friend_views(friends@.push(friend)) =~= done.push(friend@));
                    if later is Ok {
                        assert(done + (seq![friend@] + later->Ok_0) =~= done.push(friend@)
                            + later->Ok_0);
                    }
                }
                friends.push(friend);
                offset += used;
            },
        }
    }
    proof {
        assert(friend_views(friends@) + Seq::<FriendView>::empty() =~= friend_views(friends@));
    }
    Ok(friends)
}

/// What a client is told about itself after login.
#[derive(Debug, PartialEq)]
pub struct ClientData {
    pub username: String,
    pub friends: Vec<Friend>,
    pub funds: u64,
    pub status: PlayerStatus,
    pub quote: String,
}

/// Client data as the contracts see it.
pub struct ClientDataView {
    pub username: Seq<char>,
    pub friends: Seq<FriendView>,
    pub funds: u64,
    pub status: PlayerStatus,
    pub quote: Seq<char>,
}

impl View for ClientData {
    type V = ClientDataView;

    open spec fn view(&self) -> ClientDataView {
        ClientDataView {
            username: self.username@,
            friends: friend_views(self.friends@),
            funds: self.funds,
            status: self.status,
            quote: self.quote@,
        }
    }
}

/// The accessors that read client data.
pub open spec fn client_data_accessors() -> Seq<Accessor> {
    seq![Accessor::Text, Accessor::Binary, Accessor::Uint, Accessor::Uint, Accessor::Text]
}

impl ClientDataView {
    /// The fields in schema order: name, friends as one blob of records, funds,
    /// status, quote.
    pub open spec fn fields(self) -> Seq<Field> {
        seq![
            Field::Text(self.username),
            Field::Binary(friends_wire(self.friends)),
            Field::Uint(self.funds),
            Field::Uint(self.status.code()),
            Field::Text(self.quote),
        ]
    }

    /// The client data that decoded fields make: the friends blob must hold
    /// whole friend records, and the status must be one.
    pub open spec fn of_fields(fields: Seq<Field>) -> Result<ClientDataView, MessageError> {
        match parse_friends(fields[1]->Binary_0) {
            Err(e) => Err(e),
            Ok(friends) => match PlayerStatus::of_code(fields[3]->Uint_0) {
                None => Err(MessageError::InvalidStatus),
                Some(status) => Ok(
                    ClientDataView {
                        username: fields[0]->Text_0,
                        friends,
                        funds: fields[2]->Uint_0,
                        status,
                        quote: fields[4]->Text_0,
                    },
                ),
            },
        }
    }

    /// The encoding of client data.
    pub open spec fn wire(self) -> Seq<u8> {
        wire_span(client_data_spec(), 0, self.fields())
    }
}

/// The client data that `bytes` encode. The five fields are decoded first, then
/// the friends, then the status.
pub open spec fn parse_client_data(bytes: Seq<u8>) -> Result<ClientDataView, MessageError> {
    match decode(client_data_spec(), bytes, client_data_accessors()) {
        Err(e) => Err(e),
        Ok(fields) => ClientDataView::of_fields(fields),
    }
}

impl ClientData {
    /// Encodes the client data.
    pub fn to_bytes(&self) -> (bytes: Vec<u8>)
        ensures
            bytes@ == self@.wire(),
    {
        let friends = encode_friends(&self.friends);
        let mut writer = ConnectionWriter::new(client_data());
        writer.write_string(self.username.as_str()).unwrap();
        writer.write_binary(friends.as_slice()).unwrap();
        writer.write_uint(self.funds).unwrap();
        writer.write_uint(self.status.to_uint()).unwrap();
        writer.write_string(self.quote.as_str()).unwrap();
        proof {
            reveal_with_fuel(wire_span, 6);
            assert(writer@.bytes =~= self@.wire());
        }
        writer.finalize().unwrap()
    }

    /// Decodes client data. Bytes behind the last field are ignored.
    pub fn from_bytes(bytes: &[u8]) -> (r: Result<ClientData, MessageError>)
        ensures
            match parse_client_data(bytes@) {
                Ok(data) => r matches Ok(d) && d@ == data,
                Err(e) => r matches Err(x) && x == e,
            },
    {
        let mut reader = ConnectionReader::new(client_data(), bytes);
        let ghost mut accs = client_data_accessors();
        proof {
            lemma_read_all_first(reader@, accs);
        }
        let username = reader.read_string()?;
        proof {
            accs = accs.drop_first();
            lemma_read_all_first(reader@, accs);
        }
        let blob = reader.read_binary()?;
        proof {
            accs = accs.drop_first();
            lemma_read_all_first(reader@, accs);
        }
        let funds = reader.read_uint()?;
        proof {
            accs = accs.drop_first();
            lemma_read_all_first(reader@, accs);
        }
        let code = reader.read_uint()?;
        proof {
            accs = accs.drop_first();
            lemma_read_all_first(reader@, accs);
        }
        let quote = reader.read_string()?;
        proof {
            accs = accs.drop_first();
            assert(read_all(reader@, accs) == Ok::<_, MessageError>(
                (reader@, Seq::<Field>::empty()),
            ));
        }
        reader.finalize()?;
        let friends = decode_friends(blob.as_slice())?;
        match PlayerStatus::from_uint(code) {
            None => Err(MessageError::InvalidStatus),
            Some(status) => Ok(ClientData { username, friends, funds, status, quote }),
        }
    }
}

/// One message of the protocol.
#[derive(Debug, PartialEq)]
pub enum Message {
    Login { username: String, password: Vec<u8> },
    Register { username: String, password: Vec<u8> },
    ClientData(ClientData),
    Okay(u64, Option<Vec<u8>>),
    Error(u64, Option<Vec<u8>>),
}

/// A message as the contracts see it.
pub enum MessageView {
    Login { username: Seq<char>, password: Seq<u8> },
    Register { username: Seq<char>, password: Seq<u8> },
    ClientData(ClientDataView),
    Okay(u64, Option<Seq<u8>>),
    Error(u64, Option<Seq<u8>>),
}

/// Optional bytes as the contracts see them.
pub open spec fn data_view(data: Option<Vec<u8>>) -> Option<Seq<u8>> {
    match data {
        Some(bytes) => Some(bytes@),
        None => None,
    }
}

impl View for Message {
    type V = MessageView;

    open spec fn view(&self) -> MessageView {
        match self {
            Message::Login { username, password } => MessageView::Login {
                username: username@,
                password: password@,
            },
            Message::Register { username, password } => MessageView::Register {
                username: username@,
                password: password@,
            },
            Message::ClientData(data) => MessageView::ClientData(data@),
            Message::Okay(id, data) => MessageView::Okay(*id, data_view(*data)),
            Message::Error(id, data) => MessageView::Error(*id, data_view(*data)),
        }
    }
}

/// The fields of a login or registration body: name, password digest.
pub open spec fn login_fields(username: Seq<char>, password: Seq<u8>) -> Seq<Field> {
    seq![Field::Text(username), Field::Binary(password)]
}

/// The fields of a status body: the id, whether data follows, and the data where
/// it does. Without data the body ends behind the flag, short of its schema.
pub open spec fn status_fields(id: u64, data: Option<Seq<u8>>) -> Seq<Field> {
    match data {
        Some(bytes) => seq![Field::Uint(id), Field::Bool(true), Field::Binary(bytes)],
        None => seq![Field::Uint(id), Field::Bool(false)],
    }
}

/// The status that a status body holds: the id and the flag are decoded first,
/// and the data only where the flag is set.
pub open spec fn parse_status(body: Seq<u8>) -> Result<(u64, Option<Seq<u8>>), MessageError> {
    match read_all(
        ReaderModel::start(status_spec(), body),
        seq![Accessor::Uint, Accessor::Bool],
    ) {
        Err(e) => Err(e),
        Ok((reader, head)) => if head[1]->Bool_0 {
            match read_all(reader, seq![Accessor::Binary]) {
                Err(e) => Err(e),
                Ok((_, data)) => Ok((head[0]->Uint_0, Some(data[0]->Binary_0))),
            }
        } else {
            Ok((head[0]->Uint_0, None))
        },
    }
}

/// The name and password digest that a login body holds.
pub open spec fn parse_login(body: Seq<u8>) -> Result<(Seq<char>, Seq<u8>), MessageError> {
    match decode(login_spec(), body, seq![Accessor::Text, Accessor::Binary]) {
        Err(e) => Err(e),
        Ok(fields) => Ok((fields[0]->Text_0, fields[1]->Binary_0)),
    }
}

impl MessageView {
    /// The number that names the kind of message in the container.
    pub open spec fn tag(self) -> u64 {
        match self {
            MessageView::Login { .. } => 0,
            MessageView::Register { .. } => 1,
            MessageView::Okay(..) => 2,
            MessageView::Error(..) => 3,
            MessageView::ClientData(_) => 4,
        }
    }

    /// The body, laid out by the schema of the message's kind.
    pub open spec fn body(self) -> Seq<u8> {
        match self {
            MessageView::Login { username, password } => wire_span(
                login_spec(),
                0,
                login_fields(username, password),
            ),
            MessageView::Register { username, password } => wire_span(
                login_spec(),
                0,
                login_fields(username, password),
            ),
            MessageView::Okay(id, data) => wire_span(status_spec(), 0, status_fields(id, data)),
            MessageView::Error(id, data) => wire_span(status_spec(), 0, status_fields(id, data)),
            MessageView::ClientData(data) => data.wire(),
        }
    }

    /// The whole message: the tag in eight bytes, then the body behind its length.
    pub open spec fn wire(self) -> Seq<u8> {
        wire_span(container_spec(), 0, seq![Field::Uint(self.tag()), Field::Binary(self.body())])
    }

    /// The message of kind `tag` that `body` holds. A tag that names no kind is
    /// refused.
    pub open spec fn of_body(tag: u64, body: Seq<u8>) -> Result<MessageView, MessageError> {
        if tag == 0 {
            match parse_login(body) {
                Err(e) => Err(e),
                Ok((username, password)) => Ok(MessageView::Login { username, password }),
            }
        } else if tag == 1 {
            match parse_login(body) {
                Err(e) => Err(e),
                Ok((username, password)) => Ok(MessageView::Register { username, password }),
            }
        } else if tag == 2 {
            match parse_status(body) {
                Err(e) => Err(e),
                Ok((id, data)) => Ok(MessageView::Okay(id, data)),
            }
        } else if tag == 3 {
            match parse_status(body) {
                Err(e) => Err(e),
                Ok((id, data)) => Ok(MessageView::Error(id, data)),
            }
        } else if tag == 4 {
            match parse_client_data(body) {
                Err(e) => Err(e),
                Ok(data) => Ok(MessageView::ClientData(data)),
            }
        } else {
            Err(MessageError::UnknownMessageTag)
        }
    }
}

/// The message that `bytes` hold: the container is opened first, then the body is
/// decoded by its tag.
pub open spec fn parse_message(bytes: Seq<u8>) -> Result<MessageView, MessageError> {
    match decode(container_spec(), bytes, seq![Accessor::Uint, Accessor::Binary]) {
        Err(e) => Err(e),
        Ok(fields) => MessageView::of_body(fields[0]->Uint_0, fields[1]->Binary_0),
    }
}

/// Encodes a login or registration body.
fn login_body(username: &String, password: &Vec<u8>) -> (body: Vec<u8>)
    ensures
        body@ == wire_span(login_spec(), 0, login_fields(username@, password@)),
{
    let mut writer = ConnectionWriter::new(login());
    writer.write_string(username.as_str()).unwrap();
    writer.write_binary(password.as_slice()).unwrap();
    proof {
        reveal_with_fuel(wire_span, 3);
        assert(writer@.bytes =~= wire_span(login_spec(), 0, login_fields(username@, password@)));
    }
    writer.finalize().unwrap()
}

/// Encodes a status body.
fn status_body(id: u64, data: &Option<Vec<u8>>) -> (body: Vec<u8>)
    ensures
        body@ == wire_span(status_spec(), 0, status_fields(id, data_view(*data))),
{
    let mut writer = ConnectionWriter::new(status());
    writer.write_uint(id).unwrap();
    match data {
        Some(bytes) => {
            writer.write_bool(true).unwrap();
            writer.write_binary(bytes.as_slice()).unwrap();
        },
        None => {
            writer.write_bool(false).unwrap();
        },
    }
    proof {
        reveal_with_fuel(wire_span, 4);
        assert(writer@.bytes =~= wire_span(
            status_spec(),
            0,
            status_fields(id, data_view(*data)),
        ));
    }
    writer.finalize_unchecked()
}

/// Puts a body into its container.
fn combine(head: u64, body: Vec<u8>) -> (bytes: Vec<u8>)
    ensures
        bytes@ == wire_span(container_spec(), 0, seq![Field::Uint(head), Field::Binary(body@)]),
{
    let mut writer = ConnectionWriter::new(container());
    writer.write_uint(head).unwrap();
    writer.write_binary(body.as_slice()).unwrap();
    proof {
        reveal_with_fuel(wire_span, 3);
        assert(writer@.bytes =~= wire_span(
            container_spec(),
            0,
            seq![Field::Uint(head), Field::Binary(body@)],
        ));
    }
    writer.finalize().unwrap()
}

/// Decodes a login or registration body.
fn read_login(body: &[u8]) -> (r: Result<(String, Vec<u8>), MessageError>)
    ensures
        match parse_login(body@) {
            Ok((username, password)) => r matches Ok((u, p)) && u@ == username && p@ == password,
            Err(e) => r matches Err(x) && x == e,
        },
{
    let mut reader = ConnectionReader::new(login(), body);
    proof {
        reveal_with_fuel(read_all, 3);
    }
    let username = reader.read_string()?;
    let password = reader.read_binary()?;
    reader.finalize()?;
    Ok((username, password))
}

/// Decodes a status body.
fn read_status(body: &[u8]) -> (r: Result<(u64, Option<Vec<u8>>), MessageError>)
    ensures
        match parse_status(body@) {
            Ok((id, data)) => r matches Ok((i, d)) && i == id && data_view(d) == data,
            Err(e) => r matches Err(x) && x == e,
        },
{
    let mut reader = ConnectionReader::new(status(), body);
    proof {
        reveal_with_fuel(read_all, 3);
    }
    let id = reader.read_uint()?;
    let has_data = reader.read_bool()?;
    if has_data {
        let data = reader.read_binary()?;
        Ok((id, Some(data)))
    } else {
        Ok((id, None))
    }
}

impl Message {
    /// Encodes the message in its container.
    pub fn to_bytes(&self) -> (bytes: Vec<u8>)
        ensures
            bytes@ == self@.wire(),
    {
        match self {
            Message::Login { username, password } => combine(0, login_body(username, password)),
            Message::Register { username, password } => combine(
                1,
                login_body(username, password),
            ),
            Message::Okay(id, data) => combine(2, status_body(*id, data)),
            Message::Error(id, data) => combine(3, status_body(*id, data)),
            Message::ClientData(data) => combine(4, data.to_bytes()),
        }
    }

    /// Decodes a message from its container. Bytes behind the container, and
    /// bytes of the body behind its last field, are ignored.
    pub fn from_bytes(bytes: &[u8]) -> (r: Result<Message, MessageError>)
        ensures
            match parse_message(bytes@) {
                Ok(message) => r matches Ok(m) && m@ == message,
                Err(e) => r matches Err(x) && x == e,
            },
    {
        let mut reader = ConnectionReader::new(container(), bytes);
        proof {
            reveal_with_fuel(read_all, 3);
        }
        let head = reader.read_uint()?;
        let body = reader.read_binary()?;
        reader.finalize()?;
        match head {
            0 => {
                let (username, password) = read_login(body.as_slice())?;
                Ok(Message::Login { username, password })
            },
            1 => {
                let (username, password) = read_login(body.as_slice())?;
                Ok(Message::Register { username, password })
            },
            2 => {
                let (id, data) = read_status(body.as_slice())?;
                Ok(Message::Okay(id, data))
            },
            3 => {
                let (id, data) = read_status(body.as_slice())?;
                Ok(Message::Error(id, data))
            },
            4 => {
                let data = ClientData::from_bytes(body.as_slice())?;
                Ok(Message::ClientData(data))
            },
            _ => Err(MessageError::UnknownMessageTag),
        }
    }
}

} // verus!
