//! What publishers tell their subscribers, and the `tokio` broadcast channels
//! over which they do.
use crate::headers::{copy_bytes, Headers};
use tokio::sync::broadcast;
use vstd::prelude::*;

verus! {

/// The end of a broadcast channel that messages are sent into.
#[verifier::external_type_specification]
#[verifier::external_body]
#[verifier::reject_recursive_types(T)]
pub struct ExSender<T>(broadcast::Sender<T>);

/// The end of a broadcast channel at which one subscriber gets all messages.
#[verifier::external_type_specification]
#[verifier::external_body]
#[verifier::reject_recursive_types(T)]
pub struct ExReceiver<T>(broadcast::Receiver<T>);

/// What a send fails with where nobody is subscribed.
#[verifier::external_type_specification]
#[verifier::external_body]
#[verifier::reject_recursive_types(T)]
pub struct ExSendError<T>(broadcast::error::SendError<T>);

/// What a publisher sends to every subscriber of a topic.
pub enum Message {
    /// Comes first: the headers of the publisher's request.
    Headers(Headers),
    /// A part of the publisher's body.
    Data(Vec<u8>),
    /// Comes last.
    Close,
}

/// The contents of a message.
pub enum MessageView {
    Headers(Seq<(Seq<char>, Seq<u8>)>),
    Data(Seq<u8>),
    Close,
}

impl View for Message {
    type V = MessageView;

    open spec fn view(&self) -> MessageView {
        match self {
            Message::Headers(headers) => MessageView::Headers(headers@),
            Message::Data(data) => MessageView::Data(data@),
            Message::Close => MessageView::Close,
        }
    }
}

impl Clone for Message {
    fn clone(&self) -> (copy: Self)
        ensures
            copy@ == self@,
    {
        match self {
            Message::Headers(headers) => Message::Headers(headers.clone()),
            Message::Data(data) => Message::Data(copy_bytes(data)),
            Message::Close => Message::Close,
        }
    }
}

/// The capacity that a topic was made with: how many messages a subscriber may
/// fall behind at least.
pub uninterp spec fn backlog(tx: broadcast::Sender<Message>) -> usize;

/// Whether the subscriber gets what is sent into this end.
pub uninterp spec fn hears(
    rx: broadcast::Receiver<Message>,
    tx: broadcast::Sender<Message>,
) -> bool;

/// What the channel of this subscriber was made for: the number of the server,
/// the name of the topic, and its serial number among the topics of the server.
pub uninterp spec fn made_for(rx: broadcast::Receiver<Message>) -> (u64, Seq<char>, u64);

/// Whether `tokio` has counted this many receivers of the channel at some
/// moment, be it to tell it or to send them a message. The number changes with every subscriber, so several may be right of
/// one channel, each at its own moment.
pub uninterp spec fn counted(tx: broadcast::Sender<Message>, count: usize) -> bool;

/// The messages that have been handed to this handle to be sent, in their
/// order, whether or not there was anybody to send them to. It is the handle's
/// own history: it begins with the handle, and what is handed to another handle
/// on the same channel is not part of it.
pub uninterp spec fn handed_to(tx: broadcast::Sender<Message>) -> Seq<MessageView>;

/// The messages that have been sent through this handle, in their order: those
/// handed to it that found a subscriber.
pub uninterp spec fn sent_through(tx: broadcast::Sender<Message>) -> Seq<MessageView>;

/// The two handles lead to the same subscribers.
pub open spec fn same_topic(a: broadcast::Sender<Message>, b: broadcast::Sender<Message>) -> bool {
    &&& backlog(a) == backlog(b)
    &&& forall|rx: broadcast::Receiver<Message>| #![trigger hears(rx, a)]
        #![trigger hears(rx, b)]
        hears(rx, a) == hears(rx, b)
}

/// The channel behind this handle was made for the topic of this server, name and
/// serial number, and for no other.
pub open spec fn belongs_to(
    tx: broadcast::Sender<Message>,
    server: u64,
    name: Seq<char>,
    serial: u64,
) -> bool {
    forall|rx: broadcast::Receiver<Message>| #[trigger]
        hears(rx, tx) ==> made_for(rx) == (server, name, serial)
}

/// Calls `tokio::sync::broadcast::channel`: a new channel of this capacity, its
/// sending end, through which nothing has been sent, and a first receiver.
/// `tokio` rejects a capacity of zero and one of more than half of all `usize`.
///
/// The channel is none that was there before, so whatever receiver it has was
/// made for the server, the topic and the serial number of this call. They tell
/// it apart from the channels of other calls; `tokio` does not get to see them.
#[allow(unused_variables)]
#[verifier::external_body]
pub(crate) fn channel(capacity: usize, server: u64, name: &String, serial: u64) -> (ends: (
    broadcast::Sender<Message>,
    broadcast::Receiver<Message>,
))
    requires
        0 < capacity <= usize::MAX / 2,
    ensures
        backlog(ends.0) == capacity,
        hears(ends.1, ends.0),
        belongs_to(ends.0, server, name@, serial),
        handed_to(ends.0) == Seq::<MessageView>::empty(),
        sent_through(ends.0) == Seq::<MessageView>::empty(),
{
    broadcast::channel(capacity)
}

/// Calls `tokio::sync::broadcast::Sender::clone`: another handle on the same
/// channel, through which nothing has been sent.
#[verifier::external_body]
pub(crate) fn clone_sender(tx: &broadcast::Sender<Message>) -> (copy: broadcast::Sender<Message>)
    ensures
        same_topic(copy, *tx),
        handed_to(copy) == Seq::<MessageView>::empty(),
        sent_through(copy) == Seq::<MessageView>::empty(),
{
    tx.clone()
}

/// Calls `tokio::sync::broadcast::Sender::subscribe`: a new receiver, which
/// gets what is sent from now on. `tokio` counts up to a quarter of all `usize`
/// receivers, more than memory holds.
#[verifier::external_body]
pub(crate) fn subscribe(tx: &broadcast::Sender<Message>) -> (rx: broadcast::Receiver<Message>)
    ensures
        hears(rx, *tx),
{
    tx.subscribe()
}

/// Calls `tokio::sync::broadcast::Sender::send`, which sends the message if
/// there is a receiver at this moment, and says how many there are. It fails
/// where there is none. How many there are depends on the requests in flight:
/// the count is the channel's, and which one it is, is left open. The message was
/// handed over either way.
#[verifier::external_body]
pub(crate) fn send(tx: &mut broadcast::Sender<Message>, message: Message) -> (sent: Result<
    usize,
    broadcast::error::SendError<Message>,
>)
    ensures
        same_topic(*final(tx), *old(tx)),
        handed_to(*final(tx)) == handed_to(*old(tx)).push(message@),
        match sent {
            Ok(receivers) => {
                &&& receivers > 0
                &&& counted(*old(tx), receivers)
                &&& sent_through(*final(tx)) == sent_through(*old(tx)).push(message@)
            },
            Err(_) => {
                &&& counted(*old(tx), 0)
                &&& sent_through(*final(tx)) == sent_through(*old(tx))
            },
        },
{
    tx.send(message)
}

/// Calls the `Display` of `tokio::sync::broadcast::error::SendError`, which
/// says the same of every failed send.
#[verifier::external_body]
pub(crate) fn error_text(error: &broadcast::error::SendError<Message>) -> (text: String)
    ensures
        text@ == "channel closed"@,
{
    error.to_string()
}

/// Calls `tokio::sync::broadcast::Sender::receiver_count`: the number of
/// receivers at this moment. It depends on the requests in flight: the count is
/// the channel's, and which one it is, is left open.
#[verifier::external_body]
pub(crate) fn receiver_count(tx: &broadcast::Sender<Message>) -> (count: usize)
    ensures
        counted(*tx, count),
{
    tx.receiver_count()
}

/// A message is told by what it holds: all of the headers, all of the data, or
/// that it is the last one. No two kinds are taken for each other.
pub proof fn law_messages_are_what_they_hold(message: Message)
    ensures
        match message {
            Message::Headers(headers) => message@ matches MessageView::Headers(entries)
                && entries.len() == headers.entries@.len() && forall|i: int|
                0 <= i < entries.len() ==> (#[trigger] entries[i]).0 == headers.entries@[i].0@
                    && entries[i].1 == headers.entries@[i].1@,
            Message::Data(data) => message@ matches MessageView::Data(bytes) && bytes == data@,
            Message::Close => message@ is Close,
        },
{
}

/// Handles on the same topic lead to the same subscribers, who may fall as far
/// behind.
pub proof fn law_handles_on_one_topic(
    a: broadcast::Sender<Message>,
    b: broadcast::Sender<Message>,
    rx: broadcast::Receiver<Message>,
)
    requires
        same_topic(a, b),
    ensures
        hears(rx, a) == hears(rx, b),
        backlog(a) == backlog(b),
{
}

} // verus!
