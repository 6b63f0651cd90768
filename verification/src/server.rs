//! What the server answers to a message, and what the answer does to its users.

use crate::message::{
    friend_views, ClientData, ClientDataView, Friend, FriendView, Message, MessageView,
};
use crate::status::PlayerStatus;
use crate::store::{
    first_login, first_with_id, highest_id, name_taken, ServerState, UsersInfoView,
};
use vstd::prelude::*;

verus! {

/// The place of the first user with this name and password digest.
pub open spec fn login_place(users: Seq<UsersInfoView>, username: Seq<char>, password: Seq<u8>)
    -> Option<int> {
    if exists|i: int| first_login(users, username, password, i) {
        Some(choose|i: int| first_login(users, username, password, i))
    } else {
        None
    }
}

/// The place of the first user with this id.
pub open spec fn id_place(users: Seq<UsersInfoView>, id: u64) -> Option<int> {
    if exists|i: int| first_with_id(users, id, i) {
        Some(choose|i: int| first_with_id(users, id, i))
    } else {
        None
    }
}

/// Every one of `ids` is the id of a user.
pub open spec fn all_known(users: Seq<UsersInfoView>, ids: Seq<u64>) -> bool {
    forall|k: int| 0 <= k < ids.len() ==> id_place(users, #[trigger] ids[k]) is Some
}

impl UsersInfoView {
    /// The user as a friend sees it.
    pub open spec fn as_friend(self) -> FriendView {
        FriendView { username: self.username, status: self.status, quote: self.quote }
    }
}

/// The users with these ids, each the first with its id, as friends see them.
pub open spec fn friends_among(users: Seq<UsersInfoView>, ids: Seq<u64>) -> Seq<FriendView> {
    Seq::new(ids.len(), |k: int| users[id_place(users, ids[k])->Some_0].as_friend())
}

/// What user `place` is told about itself.
pub open spec fn client_data_of(users: Seq<UsersInfoView>, place: int) -> ClientDataView {
    ClientDataView {
        username: users[place].username,
        friends: friends_among(users, users[place].friends),
        funds: users[place].funds,
        status: users[place].status,
        quote: users[place].quote,
    }
}

/// The users after user `place` has come online.
pub open spec fn with_online(users: Seq<UsersInfoView>, place: int) -> Seq<UsersInfoView> {
    users.update(place, UsersInfoView { status: PlayerStatus::Online, ..users[place] })
}

/// The data of a refusal: the reason as UTF-8.
pub open spec fn refusal(reason: Seq<char>) -> Option<Seq<u8>> {
    Some(vstd::utf8::encode_utf8(reason))
}

/// The users after `message`, and the replies to it in the order in which they
/// are sent.
///
/// A login with a known name and digest brings the first user with the id of
/// that login online; the replies are an ok and that user's client data. Any
/// other login is refused. A registration under a free name adds a user with the
/// next id and is answered with an ok; under a taken name it is refused. Other
/// messages change nothing and get no reply.
pub open spec fn response(users: Seq<UsersInfoView>, message: MessageView) -> (
    Seq<UsersInfoView>,
    Seq<MessageView>,
) {
    match message {
        MessageView::Login { username, password } => match login_place(
            users,
            username,
            password,
        ) {
            Some(found) => {
                let place = id_place(users, users[found].player_id)->Some_0;
                let after = with_online(users, place);
                (
                    after,
                    seq![
                        MessageView::Okay(0, None),
                        MessageView::ClientData(client_data_of(after, place)),
                    ],
                )
            },
            None => (users, seq![MessageView::Error(0, refusal("Invalid login"@))]),
        },
        MessageView::Register { username, password } => if name_taken(users, username) {
            (users, seq![MessageView::Error(0, refusal("User already exists"@))])
        } else {
            (
                users.push(
                    UsersInfoView::fresh(username, password, (highest_id(users) + 1) as u64),
                ),
                seq![MessageView::Okay(0, None)],
            )
        },
        _ => (users, Seq::empty()),
    }
}

/// The server can answer `message`: a login does not lead to a friend that is no
/// user, and a registration does not run out of ids.
pub open spec fn answerable(users: Seq<UsersInfoView>, message: MessageView) -> bool {
    match message {
        MessageView::Login { username, password } => match login_place(
            users,
            username,
            password,
        ) {
            Some(found) => {
                let place = id_place(users, users[found].player_id)->Some_0;
                all_known(users, users[place].friends)
            },
            None => true,
        },
        MessageView::Register { username, .. } => name_taken(users, username) || highest_id(users)
            < u64::MAX,
        _ => true,
    }
}

/// The messages of a list as the contracts see them.
pub open spec fn message_views(messages: Seq<Message>) -> Seq<MessageView> {
    Seq::new(messages.len(), |i: int| messages[i]@)
}

/// The first with this id is the only place that `id_place` can name.
pub proof fn lemma_id_place(users: Seq<UsersInfoView>, id: u64, i: int)
    requires
        first_with_id(users, id, i),
    ensures
        id_place(users, id) == Some(i),
{
    let j = choose|j: int| first_with_id(users, id, j);
    assert(first_with_id(users, id, j));
    if j < i {
        assert(users[j].player_id != id);
    }
    if i < j {
        assert(users[i].player_id != id);
    }
}

/// The first with this login is the only place that `login_place` can name.
pub proof fn lemma_login_place(
    users: Seq<UsersInfoView>,
    username: Seq<char>,
    password: Seq<u8>,
    i: int,
)
    requires
        first_login(users, username, password, i),
    ensures
        login_place(users, username, password) == Some(i),
{
    let j = choose|j: int| first_login(users, username, password, j);
    assert(first_login(users, username, password, j));
    if j < i {
        assert(!users[j].has_login(username, password));
    }
    if i < j {
        assert(!users[i].has_login(username, password));
    }
}

/// A change of status moves no user and changes no id.
pub proof fn lemma_online_keeps_places(users: Seq<UsersInfoView>, place: int, id: u64)
    requires
        0 <= place < users.len(),
    ensures
        id_place(with_online(users, place), id) == id_place(users, id),
{
    let after = with_online(users, place);
    assert forall|i: int| first_with_id(users, id, i) <==> first_with_id(after, id, i) by {
        if first_with_id(users, id, i) {
            assert forall|j: int| 0 <= j < i implies (#[trigger] after[j]).player_id != id by {
                assert(users[j].player_id != id);
            }
        }
        if first_with_id(after, id, i) {
            assert forall|j: int| 0 <= j < i implies (#[trigger] users[j]).player_id != id by {
                assert(after[j].player_id != id);
            }
        }
    }
}

impl ServerState {
    /// What the user with this id is told about itself: the first user with the
    /// id, and of each of its friends the first user with the friend's id.
    pub fn client_data(&self, id: u64) -> (data: Option<ClientData>)
        ensures
            match id_place(self.users@, id) {
                Some(place) => if all_known(self.users@, self.users@[place].friends) {
                    data matches Some(d) && d@ == client_data_of(self.users@, place)
                } else {
                    data is None
                },
                None => data is None,
            },
    {
        let ghost users = self.users@;
        let user = match self.users.get(id) {
            Some(user) => user,
            None => {
                proof {
                    if id_place(users, id) is Some {
                        let i = id_place(users, id)->Some_0;
                        assert(first_with_id(users, id, i));
                        assert(users[i].player_id == id);
                    }
                }
                return None;
            },
        };
        let ghost place = choose|i: int|
            first_with_id(users, id, i) && self.users.logins@[i] == *user;
        proof {
            lemma_id_place(users, id, place);
        }
        let mut friends: Vec<Friend> = Vec::new();
        let mut k: usize = 0;
        while k < user.friends.len()
            invariant
                k <= user.friends.len(),
                users == self.users@,
                0 <= place < users.len(),
                id_place(users, id) == Some(place),
                user@ == users[place],
                friends@.len() == k,
                forall|n: int| 0 <= n < k ==> id_place(users, #[trigger] user.friends@[n]) is Some,
                forall|n: int|
                    0 <= n < k ==> (#[trigger] friends@[n])@ == users[id_place(
                        users,
                        user.friends@[n],
                    )->Some_0].as_friend(),
            decreases user.friends.len() - k,
        {
            let friend_id = user.friends[k];
            match self.users.get(friend_id) {
                None => {
                    proof {
                        if id_place(users, friend_id) is Some {
                            let i = id_place(users, friend_id)->Some_0;
                            assert(first_with_id(users, friend_id, i));
                            assert(users[i].player_id == friend_id);
                        }
                        assert(!all_known(users, users[place].friends));
                    }
                    return None;
                },
                Some(friend) => {
                    proof {
                        let i = choose|i: int|
                            first_with_id(users, friend_id, i) && self.users.logins@[i] == *friend;
                        lemma_id_place(users, friend_id, i);
                    }
                    friends.push(
                        Friend {
                            username: friend.username.clone(),
                            status: friend.status,
                            quote: friend.quote.clone(),
                        },
                    );
                },
            }
            k += 1;
        }
        proof {
            assert(friend_views(friends@) =~= friends_among(users, users[place].friends));
        }
        Some(
            ClientData {
                username: user.username.clone(),
                friends,
                funds: user.funds,
                status: user.status,
                quote: user.quote.clone(),
            },
        )
    }

    /// Whether the server can answer `message`.
    pub fn can_answer(&self, message: &Message) -> (can: bool)
        ensures
            can == answerable(self.users@, message@),
    {
        let ghost users = self.users@;
        match message {
            Message::Login { username, password } => {
                match self.users.validate(username.as_str(), password.as_slice()) {
                    Some(id) => {
                        proof {
                            let found = choose|i: int|
                                first_login(users, username@, password@, i) && users[i].player_id
                                    == id;
                            lemma_login_place(users, username@, password@, found);
                            lemma_first_with_id_exists(users, id, found);
                        }
                        self.client_data(id).is_some()
                    },
                    None => {
                        proof {
                            if login_place(users, username@, password@) is Some {
                                let i = login_place(users, username@, password@)->Some_0;
                                assert(first_login(users, username@, password@, i));
                                assert(users[i].has_login(username@, password@));
                            }
                        }
                        true
                    },
                }
            },
            Message::Register { username, password: _ } => {
                let mut highest: u64 = 0;
                let mut i: usize = 0;
                while i < self.users.logins.len()
                    invariant
                        i <= self.users.logins.len(),
                        users == self.users@,
                        answerable(users, message@) == (name_taken(users, username@)
                            || highest_id(users) < u64::MAX),
                        forall|j: int| 0 <= j < i ==> (#[trigger] users[j]).username != username@,
                        highest == highest_id(users.take(i as int)),
                    decreases self.users.logins.len() - i,
                {
                    if self.users.logins[i].username == *username {
                        assert(users[i as int].username == username@);
                        return true;
                    }
                    proof {
                        assert(users.take(i + 1).drop_last() =~= users.take(i as int));
                    }
                    if self.users.logins[i].player_id > highest {
                        highest = self.users.logins[i].player_id;
                    }
                    i += 1;
                }
                proof {
                    assert(users.take(i as int) =~= users);
                }
                highest < u64::MAX
            },
            _ => true,
        }
    }

    /// Answers `message`: changes the users as the message asks and hands out
    /// the replies, in the order in which they are to be sent. No reply means
    /// that the message is passed over.
    pub fn respond(&mut self, message: Message) -> (replies: Vec<Message>)
        requires
            answerable(old(self).users@, message@),
        ensures
            (final(self).users@, message_views(replies@)) == response(old(self).users@, message@),
    {
        let ghost users = self.users@;
        let mut replies: Vec<Message> = Vec::new();
        match message {
            Message::Login { username, password } => {
                match self.users.validate(username.as_str(), password.as_slice()) {
                    Some(id) => {
                        let ghost found = choose|i: int|
                            first_login(users, username@, password@, i) && users[i].player_id
                                == id;
                        proof {
                            lemma_login_place(users, username@, password@, found);
                            assert(exists|i: int| first_with_id(users, id, i)) by {
                                lemma_first_with_id_exists(users, id, found);
                            }
                        }
                        let ghost place = id_place(users, id)->Some_0;
                        match self.users.get_mut(id) {
                            Some(user) => {
                                user.status = PlayerStatus::Online;
                            },
                            None => {},
                        }
                        proof {
                            assert(first_with_id(users, id, place));
                            assert(self.users@ =~= with_online(users, place));
                            lemma_online_keeps_places(users, place, id);
                            assert forall|k: int|
                                0 <= k < users[place].friends.len() implies id_place(
                                self.users@,
                                #[trigger] users[place].friends[k],
                            ) is Some by {
                                lemma_online_keeps_places(users, place, users[place].friends[k]);
                            }
                            assert(all_known(self.users@, self.users@[place].friends));
                        }
                        replies.push(Message::Okay(0, None));
                        match self.client_data(id) {
                            Some(data) => {
                                replies.push(Message::ClientData(data));
                            },
                            None => {},
                        }
                        proof {
                            assert(message_views(replies@) =~= response(users, message@).1);
                        }
                    },
                    None => {
                        proof {
                            if login_place(users, username@, password@) is Some {
                                let i = login_place(users, username@, password@)->Some_0;
                                assert(first_login(users, username@, password@, i));
                                assert(users[i].has_login(username@, password@));
                            }
                        }
                        let reason = "Invalid login".as_bytes();
                        replies.push(Message::Error(0, Some(vstd::slice::slice_to_vec(reason))));
                        proof {
                            assert(message_views(replies@) =~= response(users, message@).1);
                        }
                    },
                }
            },
            Message::Register { username, password } => {
                if self.users.add_login(username, password) {
                    replies.push(Message::Okay(0, None));
                } else {
                    let reason = "User already exists".as_bytes();
                    replies.push(Message::Error(0, Some(vstd::slice::slice_to_vec(reason))));
                }
                proof {
                    assert(message_views(replies@) =~= response(users, message@).1);
                }
            },
            _ => {
                proof {
                    assert(message_views(replies@) =~= response(users, message@).1);
                }
            },
        }
        replies
    }
}

/// Where some user has this id, some user is the first to have it.
pub proof fn lemma_first_with_id_exists(users: Seq<UsersInfoView>, id: u64, at: int)
    requires
        0 <= at < users.len(),
        users[at].player_id == id,
    ensures
        exists|i: int| first_with_id(users, id, i),
    decreases at,
{
    if exists|j: int| 0 <= j < at && (#[trigger] users[j]).player_id == id {
        let j = choose|j: int| 0 <= j < at && (#[trigger] users[j]).player_id == id;
        lemma_first_with_id_exists(users, id, j);
    } else {
        assert(first_with_id(users, id, at));
    }
}

} // verus!
