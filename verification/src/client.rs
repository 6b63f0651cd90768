//! What the client makes of what the user typed and of what the server said.

use crate::login::{has_whitespace, validate, verdict, LoginValidation};
use crate::message::{data_view, Message, MessageView};
use vstd::prelude::*;

verus! {

/// What a typed name and password lead to.
#[derive(Debug, Clone, Copy, PartialEq, Eq, Structural)]
pub enum Entry {
    /// One of the two was left empty: the user gave up.
    Cancelled,
    /// Both are in order.
    Accepted,
    /// One of them is not in order, and has to be typed again.
    Rejected(LoginValidation),
}

/// What the server's reply to a login or a registration means.
#[derive(Debug, PartialEq)]
pub enum Outcome {
    /// The server said ok.
    Accepted,
    /// The server refused, with this reason if it gave one.
    Refused(Option<Vec<u8>>),
    /// The server said something else.
    Unexpected,
}

/// An outcome as the contracts see it.
pub enum OutcomeView {
    Accepted,
    Refused(Option<Seq<u8>>),
    Unexpected,
}

impl View for Outcome {
    type V = OutcomeView;

    open spec fn view(&self) -> OutcomeView {
        match self {
            Outcome::Accepted => OutcomeView::Accepted,
            Outcome::Refused(reason) => OutcomeView::Refused(data_view(*reason)),
            Outcome::Unexpected => OutcomeView::Unexpected,
        }
    }
}

/// What a reply to a login or a registration means: an ok accepts, an error
/// refuses, and nothing else is expected.
pub open spec fn outcome_of(reply: MessageView) -> OutcomeView {
    match reply {
        MessageView::Okay(..) => OutcomeView::Accepted,
        MessageView::Error(_, reason) => OutcomeView::Refused(reason),
        _ => OutcomeView::Unexpected,
    }
}

/// What a typed name and password lead to. An empty name or password cancels,
/// whatever the other is.
pub open spec fn entry_of(username: Seq<char>, password: Seq<char>) -> Entry {
    if username.len() == 0 || password.len() == 0 {
        Entry::Cancelled
    } else {
        let judged = verdict(
            username.len(),
            password.len(),
            has_whitespace(username),
            has_whitespace(password),
        );
        if judged == LoginValidation::Valid {
            Entry::Accepted
        } else {
            Entry::Rejected(judged)
        }
    }
}

/// Judges a typed name and password.
pub fn entry(username: &str, password: &str) -> (result: Entry)
    ensures
        result == entry_of(username@, password@),
{
    if username.unicode_len() == 0 || password.unicode_len() == 0 {
        return Entry::Cancelled;
    }
    let judged = validate(username, password);
    if judged.is_valid() {
        Entry::Accepted
    } else {
        Entry::Rejected(judged)
    }
}

/// Reads the server's reply to a login or a registration.
pub fn outcome(reply: Message) -> (result: Outcome)
    ensures
        result@ == outcome_of(reply@),
{
    match reply {
        Message::Okay(_, _) => Outcome::Accepted,
        Message::Error(_, reason) => Outcome::Refused(reason),
        _ => Outcome::Unexpected,
    }
}

} // verus!
