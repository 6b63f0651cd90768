//! Every format of the protocol survives being encoded and decoded again.

use crate::error::MessageError;
use crate::message::{
    client_data_accessors, friend_accessors, friends_wire, login_fields, parse_client_data,
    parse_friend, parse_friends, parse_login, parse_message, parse_status, status_fields,
    ClientDataView, FriendView, MessageView,
};
use crate::model::{accessors, conforms, fits, wire_span, Accessor, Field};
use crate::reader::{read_all, ReaderModel};
use crate::schema::{
    client_data_spec, container_spec, db_owned_card_spec, db_user_spec, friend_summary_spec,
    login_spec, status_spec, Chunks,
};
use crate::store::{
    card_fields, card_wire, cards_wire, ids_wire, parse_card, parse_cards, parse_ids, parse_user,
    parse_users, user_accessors, users_wire, UsersInfoView,
};
use crate::theorems::{lemma_decode_prefix, lemma_read_all, lemma_read_all_within};
use crate::wire::{
    be_bytes, lemma_be_bytes_len, lemma_pow256_values, lemma_unsigned_round_trip, pow256,
};
use vstd::prelude::*;
use vstd::utf8::encode_utf8;

verus! {

/// The text can stand behind an 8-byte length.
pub open spec fn text_bounded(text: Seq<char>) -> bool {
    encode_utf8(text).len() < pow256(8)
}

/// The bytes can stand behind an 8-byte length.
pub open spec fn bytes_bounded(bytes: Seq<u8>) -> bool {
    bytes.len() < pow256(8)
}

/// What conforms to a schema that is not empty is encoded in at least one byte.
pub proof fn lemma_wire_span_not_empty(schema: Seq<Chunks>, fields: Seq<Field>)
    requires
        conforms(schema, fields),
    ensures
        wire_span(schema, 0, fields).len() >= fields.len(),
{
    let empty = Seq::<u8>::empty();
    lemma_decode_prefix(schema, fields, empty);
    assert(wire_span(schema, 0, fields) + empty =~= wire_span(schema, 0, fields));
    lemma_read_all_within(
        ReaderModel::start(schema, wire_span(schema, 0, fields)),
        accessors(fields),
    );
}

impl FriendView {
    /// The friend can be sent: its texts can stand behind their lengths.
    pub open spec fn bounded(self) -> bool {
        text_bounded(self.username) && text_bounded(self.quote)
    }
}

/// The friends as they come back from the wire.
pub open spec fn timeless_friends(friends: Seq<FriendView>) -> Seq<FriendView> {
    Seq::new(friends.len(), |i: int| friends[i].timeless())
}

/// Every friend of the list can be sent.
pub open spec fn friends_bounded(friends: Seq<FriendView>) -> bool {
    forall|i: int| 0 <= i < friends.len() ==> (#[trigger] friends[i]).bounded()
}

/// The fields of a friend that can be sent conform to the friend schema.
pub proof fn lemma_friend_conforms(friend: FriendView)
    requires
        friend.bounded(),
    ensures
        conforms(friend_summary_spec(), friend.fields()),
        accessors(friend.fields()) == friend_accessors(),
{
    let schema = friend_summary_spec();
    let fields = friend.fields();
    lemma_pow256_values();
    assert(fits(schema[0], fields[0]));
    assert(fits(schema[1], fields[1]));
    assert(fits(schema[2], fields[2]));
    assert(accessors(fields) =~= friend_accessors());
}

/// A friend record is read back from the front of any bytes that begin with it,
/// but for the start time of a game.
pub proof fn theorem_friend_round_trip(friend: FriendView, tail: Seq<u8>)
    requires
        friend.bounded(),
    ensures
        parse_friend(friend.wire() + tail) == Ok::<_, MessageError>(
            (friend.timeless(), friend.wire().len()),
        ),
        friend.wire().len() >= 1,
{
    lemma_friend_conforms(friend);
    lemma_decode_prefix(friend_summary_spec(), friend.fields(), tail);
    lemma_wire_span_not_empty(friend_summary_spec(), friend.fields());
    friend.status.lemma_code_round_trip();
}

/// Friends written back to back are read back in their order, but for the start
/// times of games.
pub proof fn theorem_friends_round_trip(friends: Seq<FriendView>)
    requires
        friends_bounded(friends),
    ensures
        parse_friends(friends_wire(friends)) == Ok::<_, MessageError>(timeless_friends(friends)),
    decreases friends.len(),
{
    if friends.len() == 0 {
        assert(timeless_friends(friends) =~= Seq::<FriendView>::empty());
    } else {
        let rest = friends.drop_first();
        let first = friends[0].wire();
        theorem_friend_round_trip(friends[0], friends_wire(rest));
        assert(friends_bounded(rest)) by {
            assert forall|i: int| 0 <= i < rest.len() implies (#[trigger] rest[i]).bounded() by {
                assert(rest[i] == friends[i + 1]);
            }
        }
        theorem_friends_round_trip(rest);
        assert(friends_wire(friends).skip(first.len() as int) =~= friends_wire(rest));
        assert(seq![friends[0].timeless()] + timeless_friends(rest) =~= timeless_friends(
            friends,
        ));
    }
}

impl ClientDataView {
    /// The client data can be sent.
    pub open spec fn bounded(self) -> bool {
        &&& text_bounded(self.username)
        &&& text_bounded(self.quote)
        &&& friends_bounded(self.friends)
        &&& bytes_bounded(friends_wire(self.friends))
    }

    /// The client data as it comes back from the wire.
    pub open spec fn timeless(self) -> ClientDataView {
        ClientDataView {
            friends: timeless_friends(self.friends),
            status: self.status.timeless(),
            ..self
        }
    }
}

/// Client data is read back from its encoding, whatever follows it, but for the
/// start times of games.
pub proof fn theorem_client_data_round_trip(data: ClientDataView, tail: Seq<u8>)
    requires
        data.bounded(),
    ensures
        parse_client_data(data.wire() + tail) == Ok::<_, MessageError>(data.timeless()),
{
    let schema = client_data_spec();
    let fields = data.fields();
    lemma_pow256_values();
    assert(fits(schema[0], fields[0]));
    assert(fits(schema[1], fields[1]));
    assert(fits(schema[2], fields[2]));
    assert(fits(schema[3], fields[3]));
    assert(fits(schema[4], fields[4]));
    assert(accessors(fields) =~= client_data_accessors());
    lemma_decode_prefix(schema, fields, tail);
    theorem_friends_round_trip(data.friends);
    data.status.lemma_code_round_trip();
}

/// A login body is read back from its encoding.
pub proof fn lemma_login_round_trip(username: Seq<char>, password: Seq<u8>)
    requires
        text_bounded(username),
        bytes_bounded(password),
    ensures
        parse_login(wire_span(login_spec(), 0, login_fields(username, password))) == Ok::<
            _,
            MessageError,
        >((username, password)),
{
    let schema = login_spec();
    let fields = login_fields(username, password);
    let empty = Seq::<u8>::empty();
    assert(fits(schema[0], fields[0]));
    assert(fits(schema[1], fields[1]));
    assert(accessors(fields) =~= seq![Accessor::Text, Accessor::Binary]);
    lemma_decode_prefix(schema, fields, empty);
    assert(wire_span(schema, 0, fields) + empty =~= wire_span(schema, 0, fields));
}

/// A status body is read back from its encoding, with its data or without.
pub proof fn lemma_status_round_trip(id: u64, data: Option<Seq<u8>>)
    requires
        data matches Some(bytes) ==> bytes_bounded(bytes),
    ensures
        parse_status(wire_span(status_spec(), 0, status_fields(id, data))) == Ok::<
            _,
            MessageError,
        >((id, data)),
{
    let schema = status_spec();
    let fields = status_fields(id, data);
    let body = wire_span(schema, 0, fields);
    let head = seq![fields[0], fields[1]];
    let start = ReaderModel::start(schema, body);
    lemma_pow256_values();
    assert(fits(schema[0], head[0]));
    assert(fits(schema[1], head[1]));
    assert(accessors(head) =~= seq![Accessor::Uint, Accessor::Bool]);
    reveal_with_fuel(wire_span, 4);
    match data {
        None => {
            assert(head =~= fields);
            assert(start.remaining() =~= wire_span(schema, 0, head) + Seq::<u8>::empty());
            lemma_read_all(start, head, Seq::empty());
        },
        Some(bytes) => {
            let last = seq![fields[2]];
            let tail = wire_span(schema, 2, last);
            assert(fits(schema[2], last[0]));
            assert(start.remaining() =~= wire_span(schema, 0, head) + tail);
            lemma_read_all(start, head, tail);
            let reader = read_all(start, accessors(head))->Ok_0.0;
            assert(reader.remaining() =~= wire_span(schema, 2, last) + Seq::<u8>::empty());
            assert(accessors(last) =~= seq![Accessor::Binary]);
            lemma_read_all(reader, last, Seq::empty());
        },
    }
}

impl MessageView {
    /// The message can be sent: every text and byte string in it, and its body,
    /// can stand behind an 8-byte length.
    pub open spec fn bounded(self) -> bool {
        &&& bytes_bounded(self.body())
        &&& match self {
            MessageView::Login { username, password } => text_bounded(username) && bytes_bounded(
                password,
            ),
            MessageView::Register { username, password } => text_bounded(username)
                && bytes_bounded(password),
            MessageView::ClientData(data) => data.bounded(),
            MessageView::Okay(_, data) => data matches Some(bytes) ==> bytes_bounded(bytes),
            MessageView::Error(_, data) => data matches Some(bytes) ==> bytes_bounded(bytes),
        }
    }

    /// The message as it comes back from the wire.
    pub open spec fn timeless(self) -> MessageView {
        match self {
            MessageView::ClientData(data) => MessageView::ClientData(data.timeless()),
            _ => self,
        }
    }
}

/// Round trip of messages: a message is read back from its encoding, whatever
/// follows it, but for the start times of games.
pub proof fn theorem_message_round_trip(message: MessageView, tail: Seq<u8>)
    requires
        message.bounded(),
    ensures
        parse_message(message.wire() + tail) == Ok::<_, MessageError>(message.timeless()),
{
    let schema = container_spec();
    let fields = seq![Field::Uint(message.tag()), Field::Binary(message.body())];
    lemma_pow256_values();
    assert(fits(schema[0], fields[0]));
    assert(fits(schema[1], fields[1]));
    assert(accessors(fields) =~= seq![Accessor::Uint, Accessor::Binary]);
    lemma_decode_prefix(schema, fields, tail);
    match message {
        MessageView::Login { username, password } => {
            lemma_login_round_trip(username, password);
        },
        MessageView::Register { username, password } => {
            lemma_login_round_trip(username, password);
        },
        MessageView::ClientData(data) => {
            theorem_client_data_round_trip(data, Seq::empty());
            assert(data.wire() + Seq::<u8>::empty() =~= data.wire());
        },
        MessageView::Okay(id, data) => {
            lemma_status_round_trip(id, data);
        },
        MessageView::Error(id, data) => {
            lemma_status_round_trip(id, data);
        },
    }
}

/// Friend ids written back to back are read back in their order.
pub proof fn theorem_ids_round_trip(ids: Seq<u64>)
    ensures
        parse_ids(ids_wire(ids)) == Ok::<_, MessageError>(ids),
    decreases ids.len(),
{
    if ids.len() == 0 {
        assert(ids =~= Seq::<u64>::empty());
    } else {
        let rest = ids.drop_first();
        let first = be_bytes(ids[0] as nat, 8);
        lemma_pow256_values();
        lemma_be_bytes_len(ids[0] as nat, 8);
        lemma_unsigned_round_trip(ids[0] as nat, 8);
        theorem_ids_round_trip(rest);
        assert(ids_wire(ids).take(8) =~= first);
        assert(ids_wire(ids).skip(8) =~= ids_wire(rest));
        assert(seq![ids[0]] + rest =~= ids);
    }
}

/// An owned-card record is read back from the front of any bytes that begin
/// with it.
pub proof fn theorem_card_round_trip(card: (u64, u8), tail: Seq<u8>)
    ensures
        parse_card(card_wire(card) + tail) == Ok::<_, MessageError>((card, card_wire(card).len())),
        card_wire(card).len() >= 1,
{
    let schema = db_owned_card_spec();
    let fields = card_fields(card);
    lemma_pow256_values();
    assert(fits(schema[0], fields[0]));
    assert(fits(schema[1], fields[1]));
    assert(accessors(fields) =~= seq![Accessor::Uint, Accessor::Uint]);
    lemma_decode_prefix(schema, fields, tail);
    lemma_wire_span_not_empty(schema, fields);
}

/// Owned cards written back to back are read back in their order.
pub proof fn theorem_cards_round_trip(cards: Seq<(u64, u8)>)
    ensures
        parse_cards(cards_wire(cards)) == Ok::<_, MessageError>(cards),
    decreases cards.len(),
{
    if cards.len() == 0 {
        assert(cards =~= Seq::<(u64, u8)>::empty());
    } else {
        let rest = cards.drop_first();
        let first = card_wire(cards[0]);
        theorem_card_round_trip(cards[0], cards_wire(rest));
        theorem_cards_round_trip(rest);
        assert(cards_wire(cards).skip(first.len() as int) =~= cards_wire(rest));
        assert(seq![cards[0]] + rest =~= cards);
    }
}

impl UsersInfoView {
    /// The user can be persisted: every text and byte string of its record can
    /// stand behind an 8-byte length.
    pub open spec fn bounded(self) -> bool {
        &&& text_bounded(self.username)
        &&& bytes_bounded(self.password)
        &&& bytes_bounded(ids_wire(self.friends))
        &&& text_bounded(self.quote)
        &&& bytes_bounded(cards_wire(self.card_collection))
    }
}

/// The users as they are loaded again: offline.
pub open spec fn offline_users(users: Seq<UsersInfoView>) -> Seq<UsersInfoView> {
    Seq::new(users.len(), |i: int| users[i].offline())
}

/// Every user of the list can be persisted.
pub open spec fn users_bounded(users: Seq<UsersInfoView>) -> bool {
    forall|i: int| 0 <= i < users.len() ==> (#[trigger] users[i]).bounded()
}

/// A user record is read back from the front of any bytes that begin with it;
/// the user comes back offline.
pub proof fn theorem_user_round_trip(user: UsersInfoView, tail: Seq<u8>)
    requires
        user.bounded(),
    ensures
        parse_user(user.wire() + tail) == Ok::<_, MessageError>((user.offline(), user.wire().len())),
        user.wire().len() >= 1,
{
    let schema = db_user_spec();
    let fields = user.fields();
    lemma_pow256_values();
    assert(fits(schema[0], fields[0]));
    assert(fits(schema[1], fields[1]));
    assert(fits(schema[2], fields[2]));
    assert(fits(schema[3], fields[3]));
    assert(fits(schema[4], fields[4]));
    assert(fits(schema[5], fields[5]));
    assert(fits(schema[6], fields[6]));
    assert(accessors(fields) =~= user_accessors());
    lemma_decode_prefix(schema, fields, tail);
    lemma_wire_span_not_empty(schema, fields);
    theorem_ids_round_trip(user.friends);
    theorem_cards_round_trip(user.card_collection);
}

/// Round trip of the user store: any number of users written back to back are
/// read back field for field in their order, offline.
pub proof fn theorem_users_round_trip(users: Seq<UsersInfoView>)
    requires
        users_bounded(users),
    ensures
        parse_users(users_wire(users)) == Ok::<_, MessageError>(offline_users(users)),
    decreases users.len(),
{
    if users.len() == 0 {
        assert(offline_users(users) =~= Seq::<UsersInfoView>::empty());
    } else {
        let rest = users.drop_first();
        let first = users[0].wire();
        theorem_user_round_trip(users[0], users_wire(rest));
        assert(users_bounded(rest)) by {
            assert forall|i: int| 0 <= i < rest.len() implies (#[trigger] rest[i]).bounded() by {
                assert(rest[i] == users[i + 1]);
            }
        }
        theorem_users_round_trip(rest);
        assert(users_wire(users).skip(first.len() as int) =~= users_wire(rest));
        assert(seq![users[0].offline()] + offline_users(rest) =~= offline_users(users));
    }
}

} // verus!
