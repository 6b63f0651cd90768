//! Persisted users: their records back to back, and the table they load into.

use crate::error::MessageError;
use crate::message::{as_stream_error, behind, stream_error};
use crate::model::{wire_span, Accessor, Field};
use crate::reader::{decode_prefix, lemma_read_all_first, read_all, ConnectionReader};
use crate::schema::{db_owned_card, db_owned_card_spec, db_user, db_user_spec};
use crate::status::PlayerStatus;
use crate::text::{same_bytes, same_text};
use crate::theorems::{lemma_read_all_within, lemma_read_shape, lemma_uint_within_width};
use crate::wire::{be_bytes, be_value, lemma_be_value_bound, lemma_pow256_values, push_be, read_be};
use crate::writer::ConnectionWriter;
use vstd::prelude::*;
use vstd::slice::slice_subrange;

verus! {

/// One user of the server.
#[derive(Clone, Debug, PartialEq)]
pub struct UsersInfo {
    pub username: String,
    pub password: Vec<u8>,
    pub player_id: u64,
    pub friends: Vec<u64>,
    pub quote: String,
    pub funds: u64,
    pub status: PlayerStatus,
    pub card_collection: Vec<(u64, u8)>,
}

/// A user as the contracts see it.
pub struct UsersInfoView {
    pub username: Seq<char>,
    pub password: Seq<u8>,
    pub player_id: u64,
    pub friends: Seq<u64>,
    pub quote: Seq<char>,
    pub funds: u64,
    pub status: PlayerStatus,
    pub card_collection: Seq<(u64, u8)>,
}

impl View for UsersInfo {
    type V = UsersInfoView;

    open spec fn view(&self) -> UsersInfoView {
        UsersInfoView {
            username: self.username@,
            password: self.password@,
            player_id: self.player_id,
            friends: self.friends@,
            quote: self.quote@,
            funds: self.funds,
            status: self.status,
            card_collection: self.card_collection@,
        }
    }
}

/// Friend ids back to back, eight bytes each.
pub open spec fn ids_wire(ids: Seq<u64>) -> Seq<u8>
    decreases ids.len(),
{
    if ids.len() == 0 {
        Seq::empty()
    } else {
        be_bytes(ids[0] as nat, 8) + ids_wire(ids.drop_first())
    }
}

/// The ids that `blob` holds, eight bytes each. A blob that does not end on an
/// id is a corrupt stream.
pub open spec fn parse_ids(blob: Seq<u8>) -> Result<Seq<u64>, MessageError>
    decreases blob.len(),
{
    if blob.len() == 0 {
        Ok(Seq::empty())
    } else if blob.len() < 8 {
        Err(MessageError::CorruptRecordStream)
    } else {
        behind(seq![be_value(blob.take(8)) as u64], parse_ids(blob.skip(8)))
    }
}

/// The fields of one owned card, in schema order: card id, amount.
pub open spec fn card_fields(card: (u64, u8)) -> Seq<Field> {
    seq![Field::Uint(card.0), Field::Uint(card.1 as u64)]
}

/// One owned-card record.
pub open spec fn card_wire(card: (u64, u8)) -> Seq<u8> {
    wire_span(db_owned_card_spec(), 0, card_fields(card))
}

/// The owned card at the front of `bytes`, and the count of bytes that its
/// record takes.
pub open spec fn parse_card(bytes: Seq<u8>) -> Result<((u64, u8), nat), MessageError> {
    match decode_prefix(db_owned_card_spec(), bytes, seq![Accessor::Uint, Accessor::Uint]) {
        Err(e) => Err(e),
        Ok((fields, used)) => Ok(((fields[0]->Uint_0, fields[1]->Uint_0 as u8), used)),
    }
}

/// Owned-card records back to back.
pub open spec fn cards_wire(cards: Seq<(u64, u8)>) -> Seq<u8>
    decreases cards.len(),
{
    if cards.len() == 0 {
        Seq::empty()
    } else {
        card_wire(cards[0]) + cards_wire(cards.drop_first())
    }
}

/// The owned cards that `blob` holds back to back. Bytes that end inside a
/// record are a corrupt stream.
pub open spec fn parse_cards(blob: Seq<u8>) -> Result<Seq<(u64, u8)>, MessageError>
    decreases blob.len(),
{
    if blob.len() == 0 {
        Ok(Seq::empty())
    } else {
        match parse_card(blob) {
            Err(e) => Err(stream_error(e)),
            Ok((card, used)) => if 0 < used <= blob.len() {
                behind(seq![card], parse_cards(blob.skip(used as int)))
            } else {
                Err(MessageError::CorruptRecordStream)
            },
        }
    }
}

/// The accessors that read one user record.
pub open spec fn user_accessors() -> Seq<Accessor> {
    seq![
        Accessor::Text,
        Accessor::Binary,
        Accessor::Uint,
        Accessor::Binary,
        Accessor::Text,
        Accessor::Uint,
        Accessor::Binary,
    ]
}

impl UsersInfoView {
    /// The fields of a user record, in schema order: name, password digest, id,
    /// friend ids as one blob, quote, funds, owned cards as one blob. The status
    /// is not persisted.
    pub open spec fn fields(self) -> Seq<Field> {
        seq![
            Field::Text(self.username),
            Field::Binary(self.password),
            Field::Uint(self.player_id),
            Field::Binary(ids_wire(self.friends)),
            Field::Text(self.quote),
            Field::Uint(self.funds),
            Field::Binary(cards_wire(self.card_collection)),
        ]
    }

    /// The user that the fields of one record make; it is offline. The blobs
    /// must hold whole ids and whole cards.
    pub open spec fn of_fields(fields: Seq<Field>) -> Result<UsersInfoView, MessageError> {
        match parse_ids(fields[3]->Binary_0) {
            Err(e) => Err(e),
            Ok(friends) => match parse_cards(fields[6]->Binary_0) {
                Err(e) => Err(e),
                Ok(card_collection) => Ok(
                    UsersInfoView {
                        username: fields[0]->Text_0,
                        password: fields[1]->Binary_0,
                        player_id: fields[2]->Uint_0,
                        friends,
                        quote: fields[4]->Text_0,
                        funds: fields[5]->Uint_0,
                        status: PlayerStatus::Offline,
                        card_collection,
                    },
                ),
            },
        }
    }

    /// One user record.
    pub open spec fn wire(self) -> Seq<u8> {
        wire_span(db_user_spec(), 0, self.fields())
    }

    /// The user as it is loaded again: offline.
    pub open spec fn offline(self) -> UsersInfoView {
        UsersInfoView { status: PlayerStatus::Offline, ..self }
    }
}

/// The user at the front of `bytes`, and the count of bytes that its record
/// takes. The seven fields are decoded first, then the friend ids, then the
/// cards.
pub open spec fn parse_user(bytes: Seq<u8>) -> Result<(UsersInfoView, nat), MessageError> {
    match decode_prefix(db_user_spec(), bytes, user_accessors()) {
        Err(e) => Err(stream_error(e)),
        Ok((fields, used)) => match UsersInfoView::of_fields(fields) {
            Err(e) => Err(e),
            Ok(user) => Ok((user, used)),
        },
    }
}

/// User records back to back, with no count before them and nothing between.
pub open spec fn users_wire(users: Seq<UsersInfoView>) -> Seq<u8>
    decreases users.len(),
{
    if users.len() == 0 {
        Seq::empty()
    } else {
        users[0].wire() + users_wire(users.drop_first())
    }
}

/// The users that `bytes` hold back to back. The stream ends where the bytes
/// end; bytes that end inside a record are a corrupt stream.
pub open spec fn parse_users(bytes: Seq<u8>) -> Result<Seq<UsersInfoView>, MessageError>
    decreases bytes.len(),
{
    if bytes.len() == 0 {
        Ok(Seq::empty())
    } else {
        match parse_user(bytes) {
            Err(e) => Err(e),
            Ok((user, used)) => if 0 < used <= bytes.len() {
                behind(seq![user], parse_users(bytes.skip(used as int)))
            } else {
                Err(MessageError::CorruptRecordStream)
            },
        }
    }
}

/// The users of a list as the contracts see them.
pub open spec fn user_views(users: Seq<UsersInfo>) -> Seq<UsersInfoView> {
    Seq::new(users.len(), |i: int| users[i]@)
}

/// An id appended to a list is appended to its bytes.
pub proof fn lemma_ids_wire_push(ids: Seq<u64>, id: u64)
    ensures
        ids_wire(ids.push(id)) == ids_wire(ids) + be_bytes(id as nat, 8),
    decreases ids.len(),
{
    let all = ids.push(id);
    if ids.len() == 0 {
        assert(all.drop_first() =~= ids);
        assert(ids_wire(ids) =~= Seq::<u8>::empty());
        assert(ids_wire(all) =~= be_bytes(id as nat, 8));
        assert(ids_wire(ids) + be_bytes(id as nat, 8) =~= be_bytes(id as nat, 8));
    } else {
        assert(all.drop_first() =~= ids.drop_first().push(id));
        lemma_ids_wire_push(ids.drop_first(), id);
        assert(ids_wire(all) =~= ids_wire(ids) + be_bytes(id as nat, 8));
    }
}

/// A card appended to a list is appended to its bytes.
pub proof fn lemma_cards_wire_push(cards: Seq<(u64, u8)>, card: (u64, u8))
    ensures
        cards_wire(cards.push(card)) == cards_wire(cards) + card_wire(card),
    decreases cards.len(),
{
    let all = cards.push(card);
    if cards.len() == 0 {
        assert(all.drop_first() =~= cards);
        assert(cards_wire(cards) =~= Seq::<u8>::empty());
        assert(cards_wire(all) =~= card_wire(card));
        assert(cards_wire(cards) + card_wire(card) =~= card_wire(card));
    } else {
        assert(all.drop_first() =~= cards.drop_first().push(card));
        lemma_cards_wire_push(cards.drop_first(), card);
        assert(cards_wire(all) =~= cards_wire(cards) + card_wire(card));
    }
}

/// A user appended to a list is appended to its bytes.
pub proof fn lemma_users_wire_push(users: Seq<UsersInfoView>, user: UsersInfoView)
    ensures
        users_wire(users.push(user)) == users_wire(users) + user.wire(),
    decreases users.len(),
{
    let all = users.push(user);
    if users.len() == 0 {
        assert(all.drop_first() =~= users);
        assert(users_wire(users) =~= Seq::<u8>::empty());
        assert(users_wire(all) =~= user.wire());
        assert(users_wire(users) + user.wire() =~= user.wire());
    } else {
        assert(all.drop_first() =~= users.drop_first().push(user));
        lemma_users_wire_push(users.drop_first(), user);
        assert(users_wire(all) =~= users_wire(users) + user.wire());
    }
}

/// Encodes friend ids back to back.
pub fn encode_ids(ids: &Vec<u64>) -> (bytes: Vec<u8>)
    ensures
        bytes@ == ids_wire(ids@),
{
    let mut bytes: Vec<u8> = Vec::new();
    let mut i: usize = 0;
    while i < ids.len()
        invariant
            i <= ids.len(),
            bytes@ == ids_wire(ids@.take(i as int)),
        decreases ids.len() - i,
    {
        push_be(&mut bytes, ids[i], 8);
        proof {
            assert(ids@.take(i + 1) =~= ids@.take(i as int).push(ids@[i as int]));
            lemma_ids_wire_push(ids@.take(i as int), ids@[i as int]);
        }
        i += 1;
    }
    proof {
        assert(ids@.take(i as int) =~= ids@);
    }
    bytes
}

/// Decodes friend ids that stand back to back, to the end of `blob`.
pub fn decode_ids(blob: &[u8]) -> (r: Result<Vec<u64>, MessageError>)
    ensures
        match parse_ids(blob@) {
            Ok(ids) => r matches Ok(list) && list@ == ids,
            Err(e) => r matches Err(x) && x == e,
        },
{
    let mut ids: Vec<u64> = Vec::new();
    let mut offset: usize = 0;
    let len = blob.len();
    proof {
        assert(blob@.skip(0) =~= blob@);
        assert(ids@ + Seq::<u64>::empty() =~= ids@);
    }
    while offset < len
        invariant
            offset <= len == blob@.len(),
            parse_ids(blob@) == behind(ids@, parse_ids(blob@.skip(offset as int))),
        decreases len - offset,
    {
        let ghost rest = blob@.skip(offset as int);
        let ghost done = ids@;
        if len - offset < 8 {
            return Err(MessageError::CorruptRecordStream);
        }
        let id = read_be(blob, offset, 8);
        proof {
            assert(blob@.subrange(offset as int, offset + 8) =~= rest.take(8));
            lemma_be_value_bound(rest.take(8));
            lemma_pow256_values();
            assert(rest.skip(8) =~= blob@.skip(offset + 8));
            let later = parse_ids(rest.skip(8));
            if later is Ok {
                assert(done + (seq![id] + later->Ok_0) =~= done.push(id) + later->Ok_0);
            }
        }
        ids.push(id);
        offset += 8;
    }
    proof {
        assert(ids@ + Seq::<u64>::empty() =~= ids@);
    }
    Ok(ids)
}

/// Encodes one owned-card record.
pub fn encode_card(card_id: u64, amount: u8) -> (bytes: Vec<u8>)
    ensures
        bytes@ == card_wire((card_id, amount)),
{
    let mut writer = ConnectionWriter::new(db_owned_card());
    writer.write_uint(card_id).unwrap();
    writer.write_uint(amount as u64).unwrap();
    proof {
        reveal_with_fuel(wire_span, 3);
        assert(writer@.bytes =~= card_wire((card_id, amount)));
    }
    writer.finalize().unwrap()
}

/// Decodes the owned-card record at the front of `bytes`; says how many bytes
/// it took.
pub fn decode_card(bytes: &[u8]) -> (r: Result<((u64, u8), usize), MessageError>)
    ensures
        match parse_card(bytes@) {
            Ok((card, used)) => r matches Ok((c, n)) && c == card && n == used && 0 < n
                <= bytes@.len(),
            Err(e) => r matches Err(x) && x == e,
        },
{
    let mut reader = ConnectionReader::new(db_owned_card(), bytes);
    proof {
        reveal_with_fuel(read_all, 3);
        lemma_read_all_within(reader@, seq![Accessor::Uint, Accessor::Uint]);
        lemma_read_shape(reader@, Accessor::Uint);
    }
    let card_id = reader.read_uint()?;
    proof {
        lemma_uint_within_width(reader@, 1);
        lemma_pow256_values();
    }
    let amount = reader.read_uint()?;
    reader.finalize()?;
    Ok(((card_id, amount as u8), reader.current_byte))
}

/// Encodes owned cards back to back.
pub fn encode_cards(cards: &Vec<(u64, u8)>) -> (bytes: Vec<u8>)
    ensures
        bytes@ == cards_wire(cards@),
{
    let mut bytes: Vec<u8> = Vec::new();
    let mut i: usize = 0;
    while i < cards.len()
        invariant
            i <= cards.len(),
            bytes@ == cards_wire(cards@.take(i as int)),
        decreases cards.len() - i,
    {
        let record = encode_card(cards[i].0, cards[i].1);
        let ghost before = bytes@;
        bytes.extend_from_slice(record.as_slice());
        proof {
            assert(bytes@ =~= before + record@);
            assert(cards@.take(i + 1) =~= cards@.take(i as int).push(cards@[i as int]));
            lemma_cards_wire_push(cards@.take(i as int), cards@[i as int]);
        }
        i += 1;
    }
    proof {
        assert(cards@.take(i as int) =~= cards@);
    }
    bytes
}

/// Decodes owned cards that stand back to back, to the end of `blob`.
pub fn decode_cards(blob: &[u8]) -> (r: Result<Vec<(u64, u8)>, MessageError>)
    ensures
        match parse_cards(blob@) {
            Ok(cards) => r matches Ok(list) && list@ == cards,
            Err(e) => r matches Err(x) && x == e,
        },
{
    let mut cards: Vec<(u64, u8)> = Vec::new();
    let mut offset: usize = 0;
    let len = blob.len();
    proof {
        assert(blob@.skip(0) =~= blob@);
        assert(cards@ + Seq::<(u64, u8)>::empty() =~= cards@);
    }
    while offset < len
        invariant
            offset <= len == blob@.len(),
            parse_cards(blob@) == behind(cards@, parse_cards(blob@.skip(offset as int))),
        decreases len - offset,
    {
        let ghost rest = blob@.skip(offset as int);
        let ghost done = cards@;
        let tail = slice_subrange(blob, offset, len);
        assert(tail@ =~= rest);
        match decode_card(tail) {
            Err(e) => {
                return Err(as_stream_error(e));
            },
            Ok((card, used)) => {
                proof {
                    assert(rest.skip(used as int) =~= blob@.skip(offset + used));
                    let later = parse_cards(rest.skip(used as int));
                    if later is Ok {
                        assert(done + (seq![card] + later->Ok_0) =~= done.push(card)
                            + later->Ok_0);
                    }
                }
                cards.push(card);
                offset += used;
            },
        }
    }
    proof {
        assert(cards@ + Seq::<(u64, u8)>::empty() =~= cards@);
    }
    Ok(cards)
}

/// Encodes one user record.
pub fn encode_user(user: &UsersInfo) -> (bytes: Vec<u8>)
    ensures
        bytes@ == user@.wire(),
{
    let friends = encode_ids(&user.friends);
    let cards = encode_cards(&user.card_collection);
    let mut writer = ConnectionWriter::new(db_user());
    writer.write_string(user.username.as_str()).unwrap();
    writer.write_binary(user.password.as_slice()).unwrap();
    writer.write_uint(user.player_id).unwrap();
    writer.write_binary(friends.as_slice()).unwrap();
    writer.write_string(user.quote.as_str()).unwrap();
    writer.write_uint(user.funds).unwrap();
    writer.write_binary(cards.as_slice()).unwrap();
    proof {
        reveal_with_fuel(wire_span, 8);
        assert(writer@.bytes =~= user@.wire());
    }
    writer.finalize().unwrap()
}

/// Decodes the user record at the front of `bytes`; says how many bytes it took.
pub fn decode_user(bytes: &[u8]) -> (r: Result<(UsersInfo, usize), MessageError>)
    ensures
        match parse_user(bytes@) {
            Ok((user, used)) => r matches Ok((u, n)) && u@ == user && n == used && 0 < n
                <= bytes@.len(),
            Err(e) => r matches Err(x) && x == e,
        },
{
    let mut reader = ConnectionReader::new(db_user(), bytes);
    let ghost mut accs = user_accessors();
    proof {
        lemma_read_all_within(reader@, accs);
        lemma_read_all_first(reader@, accs);
    }
    let username = match reader.read_string() {
        Ok(v) => v,
        Err(e) => {
            return Err(as_stream_error(e));
        },
    };
    proof {
        accs = accs.drop_first();
        lemma_read_all_first(reader@, accs);
    }
    let password = match reader.read_binary() {
        Ok(v) => v,
        Err(e) => {
            return Err(as_stream_error(e));
        },
    };
    proof {
        accs = accs.drop_first();
        lemma_read_all_first(reader@, accs);
    }
    let player_id = match reader.read_uint() {
        Ok(v) => v,
        Err(e) => {
            return Err(as_stream_error(e));
        },
    };
    proof {
        accs = accs.drop_first();
        lemma_read_all_first(reader@, accs);
    }
    let friends_blob = match reader.read_binary() {
        Ok(v) => v,
        Err(e) => {
            return Err(as_stream_error(e));
        },
    };
    proof {
        accs = accs.drop_first();
        lemma_read_all_first(reader@, accs);
    }
    let quote = match reader.read_string() {
        Ok(v) => v,
        Err(e) => {
            return Err(as_stream_error(e));
        },
    };
    proof {
        accs = accs.drop_first();
        lemma_read_all_first(reader@, accs);
    }
    let funds = match reader.read_uint() {
        Ok(v) => v,
        Err(e) => {
            return Err(as_stream_error(e));
        },
    };
    proof {
        accs = accs.drop_first();
        lemma_read_all_first(reader@, accs);
    }
    let cards_blob = match reader.read_binary() {
        Ok(v) => v,
        Err(e) => {
            return Err(as_stream_error(e));
        },
    };
    proof {
        accs = accs.drop_first();
        assert(read_all(reader@, accs) == Ok::<_, MessageError>(
            (reader@, Seq::<Field>::empty()),
        ));
    }
    match reader.finalize() {
        Ok(_) => {},
        Err(e) => {
            return Err(as_stream_error(e));
        },
    }
    let friends = decode_ids(friends_blob.as_slice())?;
    let card_collection = decode_cards(cards_blob.as_slice())?;
    Ok(
        (
            UsersInfo {
                username,
                password,
                player_id,
                friends,
                quote,
                funds,
                status: PlayerStatus::Offline,
                card_collection,
            },
            reader.current_byte,
        ),
    )
}

impl UsersInfoView {
    /// A new user: offline, with no friends, no quote, no funds and no cards.
    pub open spec fn fresh(username: Seq<char>, password: Seq<u8>, id: u64) -> UsersInfoView {
        UsersInfoView {
            username,
            password,
            player_id: id,
            friends: Seq::empty(),
            quote: Seq::empty(),
            funds: 0,
            status: PlayerStatus::Offline,
            card_collection: Seq::empty(),
        }
    }

    /// The user logs in with this name and this password digest.
    pub open spec fn has_login(self, username: Seq<char>, password: Seq<u8>) -> bool {
        self.username == username && self.password == password
    }
}

impl UsersInfo {
    /// A new user: offline, with no friends, no quote, no funds and no cards.
    pub fn new(username: String, password: Vec<u8>, id: u64) -> (user: UsersInfo)
        ensures
            user@ == UsersInfoView::fresh(username@, password@, id),
    {
        UsersInfo {
            username,
            password,
            player_id: id,
            friends: Vec::new(),
            quote: String::new(),
            funds: 0,
            status: PlayerStatus::Offline,
            card_collection: Vec::new(),
        }
    }
}

/// The users of the server, in the order in which they were added.
#[derive(Debug)]
pub struct Users {
    pub logins: Vec<UsersInfo>,
}

impl View for Users {
    type V = Seq<UsersInfoView>;

    open spec fn view(&self) -> Seq<UsersInfoView> {
        user_views(self.logins@)
    }
}

/// Some user has this name.
pub open spec fn name_taken(users: Seq<UsersInfoView>, username: Seq<char>) -> bool {
    exists|i: int| 0 <= i < users.len() && (#[trigger] users[i]).username == username
}

/// The highest id among the users, zero where there is none.
pub open spec fn highest_id(users: Seq<UsersInfoView>) -> u64
    decreases users.len(),
{
    if users.len() == 0 {
        0
    } else {
        let before = highest_id(users.drop_last());
        if users.last().player_id > before {
            users.last().player_id
        } else {
            before
        }
    }
}

/// User `i` is the first with this name.
pub open spec fn first_named(users: Seq<UsersInfoView>, username: Seq<char>, i: int) -> bool {
    &&& 0 <= i < users.len()
    &&& users[i].username == username
    &&& forall|j: int| 0 <= j < i ==> (#[trigger] users[j]).username != username
}

/// User `i` is the first with this name and this password digest.
pub open spec fn first_login(
    users: Seq<UsersInfoView>,
    username: Seq<char>,
    password: Seq<u8>,
    i: int,
) -> bool {
    &&& 0 <= i < users.len()
    &&& users[i].has_login(username, password)
    &&& forall|j: int| 0 <= j < i ==> !(#[trigger] users[j]).has_login(username, password)
}

/// User `i` is the first with this id.
pub open spec fn first_with_id(users: Seq<UsersInfoView>, id: u64, i: int) -> bool {
    &&& 0 <= i < users.len()
    &&& users[i].player_id == id
    &&& forall|j: int| 0 <= j < i ==> (#[trigger] users[j]).player_id != id
}

impl Users {
    /// No users.
    pub fn new() -> (users: Users)
        ensures
            users@ == Seq::<UsersInfoView>::empty(),
    {
        let users = Users { logins: Vec::new() };
        assert(users@ =~= Seq::<UsersInfoView>::empty());
        users
    }

    /// The place of the first user with this id.
    fn position(&self, id: u64) -> (at: Option<usize>)
        ensures
            match at {
                Some(i) => first_with_id(self@, id, i as int),
                None => forall|i: int| 0 <= i < self@.len() ==> (#[trigger] self@[i]).player_id != id,
            },
    {
        let mut i: usize = 0;
        while i < self.logins.len()
            invariant
                i <= self.logins.len(),
                forall|j: int| 0 <= j < i ==> (#[trigger] self@[j]).player_id != id,
            decreases self.logins.len() - i,
        {
            if self.logins[i].player_id == id {
                return Some(i);
            }
            i += 1;
        }
        None
    }

    /// Adds a user under a name that no user has yet, with the next id after
    /// the highest. Says whether the user was added.
    pub fn add_login(&mut self, name: String, password: Vec<u8>) -> (added: bool)
        requires
            name_taken(old(self)@, name@) || highest_id(old(self)@) < u64::MAX,
        ensures
            added == !name_taken(old(self)@, name@),
            added ==> final(self)@ == old(self)@.push(
                UsersInfoView::fresh(name@, password@, (highest_id(old(self)@) + 1) as u64),
            ),
            !added ==> final(self)@ == old(self)@,
    {
        let mut highest: u64 = 0;
        let mut i: usize = 0;
        while i < self.logins.len()
            invariant
                i <= self.logins.len(),
                forall|j: int| 0 <= j < i ==> (#[trigger] self@[j]).username != name@,
                highest == highest_id(self@.take(i as int)),
            decreases self.logins.len() - i,
        {
            if self.logins[i].username == name {
                assert(self@[i as int].username == name@);
                return false;
            }
            proof {
                assert(self@.take(i + 1).drop_last() =~= self@.take(i as int));
            }
            if self.logins[i].player_id > highest {
                highest = self.logins[i].player_id;
            }
            i += 1;
        }
        proof {
            assert(self@.take(i as int) =~= self@);
        }
        let ghost before = self@;
        let login = UsersInfo::new(name, password, highest + 1);
        self.logins.push(login);
        proof {
            assert(self@ =~= before.push(login@));
        }
        true
    }

    /// The id of the first user with this name and this password digest.
    pub fn validate(&self, username: &str, password: &[u8]) -> (id: Option<u64>)
        ensures
            match id {
                Some(id) => exists|i: int|
                    first_login(self@, username@, password@, i) && self@[i].player_id == id,
                None => forall|i: int|
                    0 <= i < self@.len() ==> !(#[trigger] self@[i]).has_login(
                        username@,
                        password@,
                    ),
            },
    {
        let mut i: usize = 0;
        while i < self.logins.len()
            invariant
                i <= self.logins.len(),
                forall|j: int|
                    0 <= j < i ==> !(#[trigger] self@[j]).has_login(username@, password@),
            decreases self.logins.len() - i,
        {
            let login = &self.logins[i];
            if same_text(login.username.as_str(), username) && same_bytes(
                login.password.as_slice(),
                password,
            ) {
                assert(first_login(self@, username@, password@, i as int));
                return Some(login.player_id);
            }
            i += 1;
        }
        None
    }

    /// The id of the first user with this name.
    pub fn get_id(&self, username: &str) -> (id: Option<u64>)
        ensures
            match id {
                Some(id) => exists|i: int|
                    first_named(self@, username@, i) && self@[i].player_id == id,
                None => !name_taken(self@, username@),
            },
    {
        let mut i: usize = 0;
        while i < self.logins.len()
            invariant
                i <= self.logins.len(),
                forall|j: int| 0 <= j < i ==> (#[trigger] self@[j]).username != username@,
            decreases self.logins.len() - i,
        {
            let login = &self.logins[i];
            if same_text(login.username.as_str(), username) {
                assert(first_named(self@, username@, i as int));
                return Some(login.player_id);
            }
            i += 1;
        }
        None
    }

    /// The name of the first user with this id.
    pub fn get_username(&self, id: u64) -> (name: Option<String>)
        ensures
            match name {
                Some(name) => exists|i: int|
                    first_with_id(self@, id, i) && self@[i].username == name@,
                None => forall|i: int|
                    0 <= i < self@.len() ==> (#[trigger] self@[i]).player_id != id,
            },
    {
        match self.position(id) {
            Some(i) => Some(self.logins[i].username.clone()),
            None => None,
        }
    }

    /// The first user with this id.
    pub fn get(&self, id: u64) -> (user: Option<&UsersInfo>)
        ensures
            match user {
                Some(user) => exists|i: int|
                    first_with_id(self@, id, i) && self.logins@[i] == *user,
                None => forall|i: int|
                    0 <= i < self@.len() ==> (#[trigger] self@[i]).player_id != id,
            },
    {
        match self.position(id) {
            Some(i) => Some(&self.logins[i]),
            None => None,
        }
    }

    /// The first user with this id, to be changed in place.
    pub fn get_mut(&mut self, id: u64) -> (user: Option<&mut UsersInfo>)
        ensures
            match user {
                Some(user) => exists|i: int|
                    {
                        &&& first_with_id(old(self)@, id, i)
                        &&& old(self).logins@[i] == *user
                        &&& final(self).logins@ == old(self).logins@.update(i, *final(user))
                    },
                None => *final(self) == *old(self) && forall|i: int|
                    0 <= i < old(self)@.len() ==> (#[trigger] old(self)@[i]).player_id != id,
            },
    {
        match self.position(id) {
            Some(i) => Some(&mut self.logins[i]),
            None => None,
        }
    }

    /// Encodes the users back to back.
    pub fn to_bytes(&self) -> (bytes: Vec<u8>)
        ensures
            bytes@ == users_wire(self@),
    {
        let mut bytes: Vec<u8> = Vec::new();
        let mut i: usize = 0;
        while i < self.logins.len()
            invariant
                i <= self.logins.len(),
                bytes@ == users_wire(self@.take(i as int)),
            decreases self.logins.len() - i,
        {
            let record = encode_user(&self.logins[i]);
            let ghost before = bytes@;
            bytes.extend_from_slice(record.as_slice());
            proof {
                assert(bytes@ =~= before + record@);
                assert(self@.take(i + 1) =~= self@.take(i as int).push(self@[i as int]));
                lemma_users_wire_push(self@.take(i as int), self@[i as int]);
            }
            i += 1;
        }
        proof {
            assert(self@.take(i as int) =~= self@);
        }
        bytes
    }

    /// Decodes users that stand back to back, to the end of `bytes`. Every user
    /// comes back offline.
    pub fn from_bytes(bytes: &[u8]) -> (r: Result<Users, MessageError>)
        ensures
            match parse_users(bytes@) {
                Ok(users) => r matches Ok(table) && table@ == users,
                Err(e) => r matches Err(x) && x == e,
            },
    {
        let mut logins: Vec<UsersInfo> = Vec::new();
        let mut offset: usize = 0;
        let len = bytes.len();
        proof {
            assert(bytes@.skip(0) =~= bytes@);
            assert(user_views(logins@) =~= Seq::<UsersInfoView>::empty());
            assert(user_views(logins@) + Seq::<UsersInfoView>::empty() =~= user_views(logins@));
        }
        while offset < len
            invariant
                offset <= len == bytes@.len(),
                parse_users(bytes@) == behind(
                    user_views(logins@),
                    parse_users(bytes@.skip(offset as int)),
                ),
            decreases len - offset,
        {
            let ghost rest = bytes@.skip(offset as int);
            let ghost done = user_views(logins@);
            let tail = slice_subrange(bytes, offset, len);
            assert(tail@ =~= rest);
            let (user, used) = decode_user(tail)?;
            proof {
                assert(rest.skip(used as int) =~= bytes@.skip(offset + used));
                let later = parse_users(rest.skip(used as int));
                assert(user_views(logins@.push(user)) =~= done.push(user@));
                if later is Ok {
                    assert(done + (seq![user@] + later->Ok_0) =~= done.push(user@)
                        + later->Ok_0);
                }
            }
            logins.push(user);
            offset += used;
        }
        proof {
            assert(user_views(logins@) + Seq::<UsersInfoView>::empty() =~= user_views(logins@));
        }
        Ok(Users { logins })
    }
}

/// What the server holds while it runs.
#[derive(Debug)]
pub struct ServerState {
    pub users: Users,
}

impl ServerState {
    /// The state of a server that starts from the persisted users in `bytes`.
    pub fn new(bytes: &[u8]) -> (r: Result<ServerState, MessageError>)
        ensures
            match parse_users(bytes@) {
                Ok(users) => r matches Ok(state) && state.users@ == users,
                Err(e) => r matches Err(x) && x == e,
            },
    {
        let users = Users::from_bytes(bytes)?;
        Ok(ServerState { users })
    }
}

} // verus!
