//! What travels from a producer to a consumer, and the `flume` channels that
//! it travels through.
use crate::drop_guard::DropGuard;
use crate::headers::Headers;
use axum::body::BodyDataStream;
use vstd::prelude::*;

verus! {

/// A request body that is still being read.
#[verifier::external_type_specification]
#[verifier::external_body]
pub struct ExBodyDataStream(BodyDataStream);

/// The end of a `flume` channel that payloads are sent into.
#[verifier::external_type_specification]
#[verifier::external_body]
#[verifier::reject_recursive_types(T)]
pub struct ExSender<T>(flume::Sender<T>);

/// The end of a `flume` channel that payloads come out of.
#[verifier::external_type_specification]
#[verifier::external_body]
#[verifier::reject_recursive_types(T)]
pub struct ExReceiver<T>(flume::Receiver<T>);

/// the data the producer is sending to the consumer
pub struct Payload {
    /// The ticket of the producer's request.
    pub producer: u64,
    pub body_stream: BodyDataStream,
    pub headers: Headers,
    /// Tells the producer's request when the consumer is done.
    pub drop_guard: DropGuard,
}

/// The capacity that a channel was made with: how many payloads it holds back
/// before a sender has to wait for a receiver.
pub uninterp spec fn capacity(tx: flume::Sender<Payload>) -> Option<usize>;

/// Whether the two are ends of the same channel, so that what is sent into the
/// one comes out of the other.
pub uninterp spec fn linked(tx: flume::Sender<Payload>, rx: flume::Receiver<Payload>) -> bool;

/// What the channel of this end was made for: the number of the server, the
/// namespace, the name, and the ticket of the request.
pub uninterp spec fn made_for(rx: flume::Receiver<Payload>) -> (u64, Seq<char>, Seq<char>, u64);

/// Whether `flume` has counted this many senders of the channel at some moment.
/// The number changes with every handle, so several may be right of one
/// channel, each at its own moment.
pub uninterp spec fn senders_counted(tx: flume::Sender<Payload>, count: usize) -> bool;

/// Whether `flume` has counted this many receivers of the channel at some
/// moment.
pub uninterp spec fn receivers_counted(tx: flume::Sender<Payload>, count: usize) -> bool;

/// Calls `flume::bounded`: a new channel of this capacity, and its two ends.
///
/// The channel is none that was there before, so whatever end it has was made
/// for the server, the namespace, the name and the ticket of this call. They
/// tell it apart from the channels of other calls; `flume` does not get to see
/// them.
#[allow(unused_variables)]
#[verifier::external_body]
pub(crate) fn bounded(
    cap: usize,
    server: u64,
    namespace: &String,
    name: &String,
    ticket: u64,
) -> (ends: (flume::Sender<Payload>, flume::Receiver<Payload>))
    ensures
        capacity(ends.0) == Some(cap),
        linked(ends.0, ends.1),
        forall|rx: flume::Receiver<Payload>| #[trigger]
            linked(ends.0, rx) ==> made_for(rx) == (server, namespace@, name@, ticket),
{
    flume::bounded(cap)
}

/// Calls `flume::Sender::clone`: another handle on the same end of the same
/// channel.
#[verifier::external_body]
pub(crate) fn clone_sender(tx: &flume::Sender<Payload>) -> (copy: flume::Sender<Payload>)
    ensures
        capacity(copy) == capacity(*tx),
        forall|rx: flume::Receiver<Payload>| #[trigger] linked(copy, rx) == linked(*tx, rx),
{
    tx.clone()
}

/// Calls `flume::Receiver::clone`: another handle on the same end of the same
/// channel.
#[verifier::external_body]
pub(crate) fn clone_receiver(rx: &flume::Receiver<Payload>) -> (copy: flume::Receiver<Payload>)
    ensures
        forall|tx: flume::Sender<Payload>| #[trigger] linked(tx, copy) == linked(tx, *rx),
{
    rx.clone()
}

/// Calls `flume::Sender::sender_count`: the number of senders that exist at
/// this moment, this one among them. How many more there are depends on what
/// other tasks hold: the count is the channel's, and which one it is, is left
/// open.
#[verifier::external_body]
pub(crate) fn sender_count(tx: &flume::Sender<Payload>) -> (count: usize)
    ensures
        count >= 1,
        senders_counted(*tx, count),
{
    tx.sender_count()
}

/// Calls `flume::Sender::receiver_count`: the number of receivers that exist at
/// this moment. It depends on what other tasks hold: the count is the
/// channel's, and which one it is, is left open.
#[verifier::external_body]
pub(crate) fn receiver_count(tx: &flume::Sender<Payload>) -> (count: usize)
    ensures
        receivers_counted(*tx, count),
{
    tx.receiver_count()
}

} // verus!
