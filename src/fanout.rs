//! The broadcast point of a room: every message published on it reaches each
//! receiver subscribed at that moment. Slow receivers lose their oldest
//! buffered messages rather than hold the publisher back.
use tokio::sync::broadcast::{Receiver, Sender};
use vstd::prelude::*;

verus! {

#[verifier::external_type_specification]
#[verifier::external_body]
#[verifier::reject_recursive_types(T)]
pub struct ExSender<T>(Sender<T>);

#[verifier::external_type_specification]
#[verifier::external_body]
#[verifier::reject_recursive_types(T)]
pub struct ExReceiver<T>(Receiver<T>);

/// One participant as a room shows it: whether a vote was cast, and its value
/// once the round is revealed.
#[derive(Clone, Debug)]
pub struct ParticipantView {
    pub lookup_id: String,
    pub display_name: String,
    pub vote_present: bool,
    pub vote_value: Option<i64>,
}

/// What a room pushes to its subscribers.
#[derive(Clone, Debug)]
pub enum RoomMessage {
    /// Votes were cleared and a new round is open.
    RoundStarted,
    /// The round is locked and its votes are shown.
    Revealed,
    /// The room's current roster, in display order.
    Voters { revealed: bool, participants: Vec<ParticipantView> },
}

/// A published message, as the contracts speak of it.
pub enum MessageView {
    RoundStarted,
    Revealed,
    Voters { revealed: bool, participants: Seq<ParticipantView> },
}

impl View for RoomMessage {
    type V = MessageView;

    open spec fn view(&self) -> MessageView {
        match self {
            RoomMessage::RoundStarted => MessageView::RoundStarted,
            RoomMessage::Revealed => MessageView::Revealed,
            RoomMessage::Voters { revealed, participants } => MessageView::Voters {
                revealed: *revealed,
                participants: participants@,
            },
        }
    }
}

/// The messages handed to `send` on the channel of `tx`, oldest first.
pub uninterp spec fn sent_through(tx: Sender<RoomMessage>) -> Seq<MessageView>;

/// Which channel the sending handle `tx` belongs to.
pub uninterp spec fn sender_channel(tx: Sender<RoomMessage>) -> int;

/// Which channel the receiving handle `rx` belongs to.
pub uninterp spec fn receiver_channel(rx: Receiver<RoomMessage>) -> int;

/// The index, in the stream of messages sent on its channel, from which `rx`
/// receives: it gets the messages sent from there on, save those it falls
/// too far behind on.
pub uninterp spec fn receiver_start(rx: Receiver<RoomMessage>) -> nat;

/// How many receivers `subscribe` has handed out on the channel of `tx`.
pub uninterp spec fn subscriptions_through(tx: Sender<RoomMessage>) -> nat;

/// A broadcast topic.
pub struct Fanout {
    tx: Sender<RoomMessage>,
}

impl Fanout {
    /// Every message published so far, oldest first.
    pub closed spec fn sent(&self) -> Seq<MessageView> {
        sent_through(self.tx)
    }

    /// The channel that the topic's subscribers listen on.
    pub closed spec fn channel(&self) -> int {
        sender_channel(self.tx)
    }

    /// How many receivers were handed out on the topic.
    pub closed spec fn subscriptions(&self) -> nat {
        subscriptions_through(self.tx)
    }

    /// A topic on which each receiver buffers up to `capacity` messages.
    pub fn new(capacity: usize) -> (r: Fanout)
        requires
            0 < capacity <= usize::MAX / 2,
        ensures
            r.sent() == Seq::<MessageView>::empty(),
            r.subscriptions() == 0,
    {
        Fanout { tx: sender_with_capacity(capacity) }
    }

    /// Hands `msg` to every current subscriber; with none, it is dropped.
    pub fn publish(&mut self, msg: RoomMessage)
        ensures
            final(self).sent() == old(self).sent().push(msg@),
            final(self).channel() == old(self).channel(),
            final(self).subscriptions() == old(self).subscriptions(),
    {
        send_to_all(&mut self.tx, msg);
    }

    /// A receiver on the topic's channel that gets every message published
    /// after this call, and none from before.
    pub fn subscribe(&mut self) -> (r: Receiver<RoomMessage>)
        ensures
            receiver_channel(r) == old(self).channel(),
            receiver_start(r) == old(self).sent().len(),
            final(self).sent() == old(self).sent(),
            final(self).channel() == old(self).channel(),
            final(self).subscriptions() == old(self).subscriptions() + 1,
    {
        subscribe_to(&mut self.tx)
    }
}

/// Relies on `tokio::sync::broadcast::Sender::new`, which panics on a zero
/// capacity or one above `usize::MAX / 2`, and makes a channel on which
/// nothing was sent yet.
#[verifier::external_body]
fn sender_with_capacity(capacity: usize) -> (r: Sender<RoomMessage>)
    requires
        0 < capacity <= usize::MAX / 2,
    ensures
        sent_through(r) == Seq::<MessageView>::empty(),
        subscriptions_through(r) == 0,
{
    Sender::new(capacity)
}

/// Relies on `tokio::sync::broadcast::Sender::send`, which writes `msg` into
/// the channel's ring for every current receiver; the error it gives when
/// nobody listens is no failure here.
#[verifier::external_body]
fn send_to_all(tx: &mut Sender<RoomMessage>, msg: RoomMessage)
    ensures
        sent_through(*final(tx)) == sent_through(*old(tx)).push(msg@),
        sender_channel(*final(tx)) == sender_channel(*old(tx)),
        subscriptions_through(*final(tx)) == subscriptions_through(*old(tx)),
{
    let _ = tx.send(msg);
}

/// Relies on `tokio::sync::broadcast::Sender::subscribe`, whose new receiver
/// shares the sender's channel and starts at the channel's current tail, the
/// count of messages sent so far. The sender itself is left as it was.
#[verifier::external_body]
fn subscribe_to(tx: &mut Sender<RoomMessage>) -> (r: Receiver<RoomMessage>)
    ensures
        receiver_channel(r) == sender_channel(*old(tx)),
        receiver_start(r) == sent_through(*old(tx)).len(),
        sent_through(*final(tx)) == sent_through(*old(tx)),
        sender_channel(*final(tx)) == sender_channel(*old(tx)),
        subscriptions_through(*final(tx)) == subscriptions_through(*old(tx)) + 1,
{
    tx.subscribe()
}

} // verus!
