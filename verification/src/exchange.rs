//! The course of a producer's and of a consumer's request.
use crate::drop_guard::DropGuard;
use crate::headers::{
    forwarded_content_type, law_content_type_byte_for_byte, law_headers_are_their_entries, Headers,
};
use crate::pipe::Payload;
use crate::status::Status;
use axum::body::BodyDataStream;
use tokio::sync::oneshot;
use vstd::prelude::*;
use vstd::utf8::encode_utf8;

verus! {

/// What a producer sends: all of its headers and its body as they are, with a
/// guard of its own that tells `done` when the consumer has let go of it.
pub open spec fn is_payload_of(
    payload: Payload,
    done: oneshot::Receiver<()>,
    ticket: u64,
    headers: Seq<(Seq<char>, Seq<u8>)>,
    body_stream: BodyDataStream,
) -> bool {
    &&& payload.producer == ticket
    &&& payload.headers@ == headers
    &&& payload.body_stream == body_stream
    &&& payload.drop_guard.is_armed()
    &&& payload.drop_guard.signals_to(done)
    &&& forall|other: DropGuard| #[trigger]
        other.signals_to(done) ==> other == payload.drop_guard
}

/// Makes the payload of a producer's request, and the receiver that is told when
/// the consumer is done with it.
pub fn payload_of(ticket: u64, headers: Headers, body_stream: BodyDataStream) -> (made: (
    Payload,
    oneshot::Receiver<()>,
))
    ensures
        is_payload_of(made.0, made.1, ticket, headers@, body_stream),
{
    let (drop_guard, done) = DropGuard::new();
    (Payload { producer: ticket, body_stream, headers, drop_guard }, done)
}

/// What a consumer is answered with: the producer's data.
pub struct Delivery {
    pub content_type: Vec<u8>,
    pub body_stream: BodyDataStream,
    /// To be kept until the consumer has all of the data.
    pub drop_guard: DropGuard,
}

impl Delivery {
    /// The answer hands on the producer's body as it is, under the content
    /// type that goes with the producer's headers.
    pub open spec fn carries(self, payload: Payload) -> bool {
        &&& self.content_type@ == forwarded_content_type(payload.headers@)
        &&& self.body_stream == payload.body_stream
        &&& self.drop_guard == payload.drop_guard
    }
}

/// Makes a consumer's answer of a producer's payload.
pub fn deliver(payload: Payload) -> (delivery: Delivery)
    ensures
        delivery.carries(payload),
        delivery.body_stream == payload.body_stream,
        delivery.drop_guard == payload.drop_guard,
        forall|i: int|
            0 <= i < payload.headers.entries@.len() && (
            #[trigger] payload.headers.entries@[i]).0@ == "content-type"@ && (forall|j: int|
                0 <= j < i ==> (#[trigger] payload.headers.entries@[j]).0@ != "content-type"@)
                && payload.headers.entries@[i].1@ != encode_utf8(
                "application/x-www-form-urlencoded"@,
            ) ==> delivery.content_type@ == payload.headers.entries@[i].1@,
{
    proof {
        assert forall|i: int|
            0 <= i < payload.headers.entries@.len() && (
            #[trigger] payload.headers.entries@[i]).0@ == "content-type"@ && (forall|j: int|
                0 <= j < i ==> (#[trigger] payload.headers.entries@[j]).0@ != "content-type"@)
                && payload.headers.entries@[i].1@ != encode_utf8(
                "application/x-www-form-urlencoded"@,
            ) implies forwarded_content_type(payload.headers@)
            == payload.headers.entries@[i].1@ by {
            law_content_type_byte_for_byte(payload.headers@, i);
        }
    }
    let content_type = payload.headers.content_type();
    Delivery {
        content_type,
        body_stream: payload.body_stream,
        drop_guard: payload.drop_guard,
    }
}

/// How far a producer request has come. It waits for its turn, then for the
/// consumer to take the payload, then for the consumer to be done with it.
#[derive(Clone, Copy, Debug, PartialEq, Eq, Structural)]
pub enum ProducerState {
    Queued,
    Sending,
    Draining,
    Answered(Status),
}

impl ProducerState {
    /// The state after what was waited for has come, or has failed to.
    pub open spec fn spec_next(self, came: bool) -> ProducerState {
        match self {
            ProducerState::Answered(status) => self,
            _ => if !came {
                ProducerState::Answered(Status::InternalServerError)
            } else {
                match self {
                    ProducerState::Queued => ProducerState::Sending,
                    ProducerState::Sending => ProducerState::Draining,
                    _ => ProducerState::Answered(Status::OK),
                }
            },
        }
    }

    /// The state after what was waited for has come, or has failed to.
    pub fn next(self, came: bool) -> (state: ProducerState)
        ensures
            state == self.spec_next(came),
    {
        match self {
            ProducerState::Answered(status) => ProducerState::Answered(status),
            _ => if !came {
                ProducerState::Answered(Status::InternalServerError)
            } else {
                match self {
                    ProducerState::Queued => ProducerState::Sending,
                    ProducerState::Sending => ProducerState::Draining,
                    _ => ProducerState::Answered(Status::OK),
                }
            },
        }
    }
}

/// A producer is answered `200 OK` once it had its turn, a consumer has taken
/// its payload and the consumer is done with it. If any of these fails, it is
/// answered `500 Internal Server Error`.
pub proof fn law_producer_is_answered(turn: bool, taken: bool, done: bool)
    ensures
        ProducerState::Queued.spec_next(turn).spec_next(taken).spec_next(done)
            == ProducerState::Answered(
            if turn && taken && done {
                Status::OK
            } else {
                Status::InternalServerError
            },
        ),
        ProducerState::Queued.spec_next(turn) != ProducerState::Answered(Status::OK),
        ProducerState::Queued.spec_next(turn).spec_next(taken) != ProducerState::Answered(
            Status::OK,
        ),
{
}

/// What a consumer is answered with is what the producer sent: its body as it is,
/// with the guard that tells the producer, under the producer's first content
/// type, byte for byte. Only where that is missing, or says exactly
/// `application/x-www-form-urlencoded`, is it `application/octet-stream`.
pub proof fn law_consumer_gets_what_the_producer_sent(
    delivery: Delivery,
    payload: Payload,
    i: int,
)
    requires
        delivery.carries(payload),
    ensures
        delivery.body_stream == payload.body_stream,
        delivery.drop_guard == payload.drop_guard,
        ({
            let entries = payload.headers.entries@;
            &&& 0 <= i < entries.len() && entries[i].0@ == "content-type"@ && (forall|j: int|
                0 <= j < i ==> (#[trigger] entries[j]).0@ != "content-type"@) ==> {
                &&& entries[i].1@ != encode_utf8("application/x-www-form-urlencoded"@)
                    ==> delivery.content_type@ == entries[i].1@
                &&& entries[i].1@ == encode_utf8("application/x-www-form-urlencoded"@)
                    ==> delivery.content_type@ == encode_utf8("application/octet-stream"@)
            }
            &&& (forall|j: int|
                0 <= j < entries.len() ==> (#[trigger] entries[j]).0@ != "content-type"@)
                ==> delivery.content_type@ == encode_utf8("application/octet-stream"@)
        }),
{
    let entries = payload.headers.entries@;
    let headers = payload.headers@;
    assert forall|j: int| 0 <= j < entries.len() implies (#[trigger] headers[j]).0 == entries[j].0@
        && headers[j].1 == entries[j].1@ by {
    }
    law_content_type_byte_for_byte(headers, i);
}

/// What a producer sends is its request: under its own ticket, with all of its
/// headers and its body, and with a guard that signals to this receiver and that
/// no other guard shares it with.
pub proof fn law_payload_is_the_request(
    payload: Payload,
    done: oneshot::Receiver<()>,
    ticket: u64,
    headers: Headers,
    body_stream: BodyDataStream,
    other: DropGuard,
)
    requires
        is_payload_of(payload, done, ticket, headers@, body_stream),
    ensures
        payload.producer == ticket,
        payload.body_stream == body_stream,
        payload.headers.entries@.len() == headers.entries@.len(),
        forall|i: int|
            0 <= i < headers.entries@.len() ==> (#[trigger] payload.headers.entries@[i]).0@
                == headers.entries@[i].0@ && payload.headers.entries@[i].1@
                == headers.entries@[i].1@,
        payload.drop_guard.is_armed(),
        payload.drop_guard.signals_to(done),
        other.signals_to(done) ==> other == payload.drop_guard,
{
    law_headers_are_their_entries(payload.headers);
    law_headers_are_their_entries(headers);
    assert forall|i: int| 0 <= i < headers.entries@.len() implies (
    #[trigger] payload.headers.entries@[i]).0@ == headers.entries@[i].0@
        && payload.headers.entries@[i].1@ == headers.entries@[i].1@ by {
        assert(payload.headers@[i] == headers@[i]);
    }
}

/// A producer's request takes one step at a time: its turn, the payload taken,
/// the consumer done. What fails to come ends it with `500`, and what it has been
/// answered it stays answered.
pub proof fn law_one_step_at_a_time(state: ProducerState, came: bool)
    ensures
        state is Answered ==> state.spec_next(came) == state,
        !(state is Answered) && !came ==> state.spec_next(came) == ProducerState::Answered(
            Status::InternalServerError,
        ),
        came ==> (state is Queued <==> state.spec_next(came) is Sending),
        came ==> (state is Sending <==> state.spec_next(came) is Draining),
        came && state is Draining ==> state.spec_next(came) == ProducerState::Answered(Status::OK),
{
}

} // verus!
