//! Messages that a connected client sends to its room, and how a room
//! answers them.
use crate::breakout_channel::{cleared, published, unique_ids, voted, BreakoutChannel};
use crate::fanout::MessageView;
use crate::user::User;
use vstd::prelude::*;

verus! {

/// A message from a client: an action name and, for a vote, its value as
/// text.
pub struct ClientMessage {
    pub action: String,
    pub vote: Option<String>,
}

/// What a client message asks of its room.
#[derive(Debug, PartialEq, Eq)]
pub enum RoomCommand {
    /// Flip the reveal flag of the round.
    ToggleVotes,
    /// Cast (or, with `None`, take back) the sender's vote.
    Vote(Option<i64>),
    /// Nothing: an unknown action, or a vote that is not a number.
    Ignore,
}

/// The value of a text made of decimal digits only.
pub open spec fn digits_value(s: Seq<char>) -> int
    decreases s.len(),
{
    if s.len() == 0 {
        0
    } else {
        digits_value(s.drop_last()) * 10 + ((s.last() as u32) - 48)
    }
}

/// The integer that a text writes in decimal, with an optional sign, if it
/// fits in an `i64`.
pub open spec fn decimal_i64(s: Seq<char>) -> Option<i64> {
    let signed = s.len() > 0 && (s[0] == '-' || s[0] == '+');
    let digits = if signed {
        s.drop_first()
    } else {
        s
    };
    let value = if signed && s[0] == '-' {
        -digits_value(digits)
    } else {
        digits_value(digits)
    };
    if digits.len() > 0 && (forall|i: int| 0 <= i < digits.len() ==> '0' <= #[trigger] digits[i] <= '9')
        && i64::MIN <= value <= i64::MAX {
        Some(value as i64)
    } else {
        None
    }
}

/// The command that a message with action `action` and vote text `vote`
/// carries.
pub open spec fn command_of(action: Seq<char>, vote: Option<Seq<char>>) -> RoomCommand {
    if action == "toggle_votes"@ {
        RoomCommand::ToggleVotes
    } else if action == "vote"@ {
        match vote {
            None => RoomCommand::Vote(None),
            Some(text) => match decimal_i64(text) {
                Some(v) => RoomCommand::Vote(Some(v)),
                None => RoomCommand::Ignore,
            },
        }
    } else {
        RoomCommand::Ignore
    }
}

/// The vote text of a message, as the contracts speak of it.
pub open spec fn vote_text(event: &ClientMessage) -> Option<Seq<char>> {
    match event.vote {
        Some(t) => Some(t@),
        None => None,
    }
}

/// Relies on `i64::from_str`, which accepts an optional `+` or `-` followed
/// by decimal digits, and fails on anything else or on a value out of range.
#[verifier::external_body]
fn parse_i64(text: &str) -> (r: Option<i64>)
    ensures
        r == decimal_i64(text@),
{
    text.parse::<i64>().ok()
}

/// The command that `event` carries.
pub fn decode(event: &ClientMessage) -> (r: RoomCommand)
    ensures
        r == command_of(event.action@, vote_text(event)),
{
    proof {
        reveal_strlit("toggle_votes");
        reveal_strlit("vote");
    }
    if event.action == "toggle_votes".to_owned() {
        RoomCommand::ToggleVotes
    } else if event.action == "vote".to_owned() {
        match &event.vote {
            None => RoomCommand::Vote(None),
            Some(text) => match parse_i64(text.as_str()) {
                Some(v) => RoomCommand::Vote(Some(v)),
                None => RoomCommand::Ignore,
            },
        }
    } else {
        RoomCommand::Ignore
    }
}

/// Applies what `event`, sent by `user`, asks of `channel`: a reveal toggle,
/// or a vote of `user`. Anything else leaves the room as it is.
pub fn handle_event(event: &ClientMessage, user: &User, channel: &mut BreakoutChannel)
    ensures
        final(channel)@.lookup_id == old(channel)@.lookup_id,
        final(channel).channel() == old(channel).channel(),
        final(channel).subscriptions() == old(channel).subscriptions(),
        unique_ids(old(channel)@.users) ==> unique_ids(final(channel)@.users),
        match command_of(event.action@, vote_text(event)) {
            RoomCommand::ToggleVotes => {
                &&& final(channel)@.show_votes == !old(channel)@.show_votes
                &&& old(channel)@.show_votes ==> final(channel)@.users == cleared(
                    old(channel)@.users,
                ) && published(old(channel)@, final(channel)@, seq![MessageView::RoundStarted])
                &&& !old(channel)@.show_votes ==> final(channel)@.users == old(channel)@.users
                    && published(old(channel)@, final(channel)@, seq![MessageView::Revealed])
            },
            RoomCommand::Vote(value) => {
                &&& final(channel)@.users == voted(old(channel)@.users, user.lookup_id@, value)
                &&& final(channel)@.show_votes == old(channel)@.show_votes
                &&& published(old(channel)@, final(channel)@, Seq::empty())
            },
            RoomCommand::Ignore => final(channel)@ == old(channel)@,
        },
{
    match decode(event) {
        RoomCommand::ToggleVotes => channel.toggle_votes(),
        RoomCommand::Vote(value) => channel.vote(user.lookup_id.as_str(), value),
        RoomCommand::Ignore => {},
    }
}

} // verus!
