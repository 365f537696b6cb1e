//! Topics, on which one request is published to many.
use crate::decimal::{decimal, decimal_text};
use crate::headers::{forwarded_content_type, Headers};
use crate::name_map::{lists, NameMap};
use crate::status::Status;
use crate::topic::{
    backlog, belongs_to, channel, clone_sender, counted, error_text, handed_to, hears,
    receiver_count, same_topic, send, sent_through, subscribe, Message, MessageView,
};
use tokio::sync::broadcast;
use vstd::prelude::*;

verus! {

/// How many messages a topic keeps for subscribers that fall behind.
pub const BACKLOG: usize = 5;

/// The topics of a server.
pub struct PubSubClients {
    number: u64,
    made: u64,
    topics: NameMap<broadcast::Sender<Message>>,
}

impl View for PubSubClients {
    type V = Map<Seq<char>, broadcast::Sender<Message>>;

    closed spec fn view(&self) -> Map<Seq<char>, broadcast::Sender<Message>> {
        self.topics@
    }
}

impl PubSubClients {
    /// No name occurs twice.
    pub closed spec fn unique(&self) -> bool {
        self.topics.wf()
    }

    /// The number by which the server is told apart from others.
    pub closed spec fn server(&self) -> u64 {
        self.number
    }

    /// How many topics have been made, as far as that is counted.
    pub closed spec fn made(&self) -> u64 {
        self.made
    }

    /// No name occurs twice, and every topic is in order.
    pub open spec fn wf(&self) -> bool {
        &&& self.unique()
        &&& topics_wf(self@, self.server(), self.made())
    }

    /// A server without topics, of this number.
    pub fn new(server: u64) -> (clients: PubSubClients)
        ensures
            clients.wf(),
            clients.server() == server,
            clients.made() == 0,
            clients@ == Map::<Seq<char>, broadcast::Sender<Message>>::empty(),
    {
        PubSubClients { number: server, made: 0, topics: NameMap::new() }
    }

    /// The topic of this name. It is made if there is none and topics are made
    /// on first use; otherwise the request fails.
    pub fn topic(&mut self, id: &String, autovivify: bool) -> (topic: Result<
        broadcast::Sender<Message>,
        Status,
    >)
        requires
            old(self).wf(),
        ensures
            final(self).wf(),
            match topic {
                Ok(tx) => {
                    &&& old(self)@.contains_key(id@) || autovivify
                    &&& vivified(old(self)@, final(self)@, id@)
                    &&& numbered(*old(self), *final(self), id@)
                    &&& same_topic(tx, final(self)@[id@])
                    &&& handed_to(tx) == Seq::<MessageView>::empty()
                    &&& sent_through(tx) == Seq::<MessageView>::empty()
                },
                Err(status) => {
                    &&& !old(self)@.contains_key(id@) && !autovivify
                    &&& status == Status::NotFound
                    &&& *final(self) == *old(self)
                },
            },
    {
        match self.topics.get(id) {
            Some(tx) => Ok(clone_sender(tx)),
            None => {
                if !autovivify {
                    return Err(Status::NotFound);
                }
                let serial = self.made;
                let (tx, _rx) = channel(BACKLOG, self.number, id, serial);
                let copy = clone_sender(&tx);
                self.topics.insert(id.clone(), tx);
                if serial < u64::MAX {
                    self.made = serial + 1;
                }
                assert forall|other: Seq<char>| #[trigger]
                    self@.contains_key(other) implies topic_wf(
                    self@[other],
                    self.server(),
                    other,
                    self.made(),
                ) by {
                    if other == id@ {
                        assert(belongs_to(self@[other], self.server(), other, serial));
                    } else {
                        assert(old(self)@.contains_key(other));
                        lemma_topic_wf_later(
                            self@[other],
                            self.server(),
                            other,
                            serial,
                            self.made(),
                        );
                    }
                }
                Ok(copy)
            },
        }
    }

    /// The names of the topics, each once.
    pub fn pubsub_index(&self) -> (ids: Vec<String>)
        requires
            self.wf(),
        ensures
            lists(ids@.map_values(|id: String| id@), self@.dom()),
    {
        let mut ids: Vec<String> = Vec::new();
        let mut i: usize = 0;
        while i < self.topics.len()
            invariant
                self.topics.wf(),
                i <= self.topics.names().len(),
                ids@.len() == i,
                forall|j: int| 0 <= j < i ==> (#[trigger] ids@[j])@ == self.topics.names()[j],
            decreases self.topics.names().len() - i,
        {
            let (id, _) = self.topics.entry(i);
            ids.push(id.clone());
            i = i + 1;
        }
        proof {
            self.topics.lemma_names();
            assert(ids@.map_values(|id: String| id@) =~= self.topics.names());
        }
        ids
    }

    /// Makes a topic of this name, if there is none yet.
    pub fn create_topic(&mut self, id: String) -> (created: Result<(Status, String), Status>)
        requires
            old(self).wf(),
        ensures
            final(self).wf(),
            match created {
                Ok((status, created_id)) => {
                    &&& !old(self)@.contains_key(id@)
                    &&& vivified(old(self)@, final(self)@, id@)
                    &&& numbered(*old(self), *final(self), id@)
                    &&& status == Status::Created
                    &&& created_id@ == id@
                },
                Err(status) => {
                    &&& old(self)@.contains_key(id@)
                    &&& status == Status::InternalServerError
                    &&& *final(self) == *old(self)
                },
            },
    {
        if self.topics.contains(&id) {
            return Err(Status::InternalServerError);
        }
        match self.topic(&id, true) {
            Ok(_) => Ok((Status::Created, id)),
            Err(status) => Err(status),
        }
    }

    /// Makes a topic of a new random name.
    ///
    /// The name is up to chance. What is made of it is up to `create_topic`.
    pub fn pubsub_create(&mut self) -> (created: Result<(Status, String), Status>)
        requires
            old(self).wf(),
        ensures
            final(self).wf(),
            match created {
                Ok((status, id)) => {
                    &&& is_random_uuid(id@)
                    &&& !old(self)@.contains_key(id@)
                    &&& vivified(old(self)@, final(self)@, id@)
                    &&& numbered(*old(self), *final(self), id@)
                    &&& status == Status::Created
                },
                Err(status) => {
                    &&& exists|id: Seq<char>| #[trigger]
                        is_random_uuid(id) && old(self)@.contains_key(id)
                    &&& status == Status::InternalServerError
                    &&& *final(self) == *old(self)
                },
            },
    {
        let id = random_id();
        self.create_topic(id)
    }

    /// Begins to publish a request with these headers. Returns the topic's
    /// sender, through which the body is to follow.
    ///
    /// It fails where there is no topic, and where the topic has no subscriber
    /// at this moment.
    pub fn pubsub_broadcast(
        &mut self,
        id: &String,
        autovivify: bool,
        headers: Headers,
    ) -> (begun: Result<broadcast::Sender<Message>, Failure>)
        requires
            old(self).wf(),
        ensures
            final(self).wf(),
            if old(self)@.contains_key(id@) || autovivify {
                &&& vivified(old(self)@, final(self)@, id@)
                &&& numbered(*old(self), *final(self), id@)
                &&& match begun {
                    Ok(tx) => {
                        &&& same_topic(tx, final(self)@[id@])
                        &&& handed_to(tx) == seq![MessageView::Headers(headers@)]
                        &&& sent_through(tx) == seq![MessageView::Headers(headers@)]
                    },
                    Err(failure) => {
                        &&& failure@ == nobody_listens()
                        &&& in_vain(final(self)@[id@], MessageView::Headers(headers@))
                    },
                }
            } else {
                &&& *final(self) == *old(self)
                &&& begun matches Err(failure) && failure@ == (FailureView {
                    status: Status::NotFound,
                    text: None,
                })
            },
    {
        let mut tx = match self.topic(id, autovivify) {
            Ok(tx) => tx,
            Err(status) => return Err(Failure { status, text: None }),
        };
        match publish(&mut tx, Part::Start(headers)) {
            Ok(_) => {
                assert(handed_to(tx) =~= seq![MessageView::Headers(headers@)]);
                assert(sent_through(tx) =~= seq![MessageView::Headers(headers@)]);
                Ok(tx)
            },
            Err(failure) => {
                assert(handed_to(tx) =~= seq![MessageView::Headers(headers@)]);
                assert(in_vain(self@[id@], MessageView::Headers(headers@)));
                Err(failure)
            },
        }
    }

    /// Subscribes to a topic.
    pub fn pubsub_subscribe(&mut self, id: &String, autovivify: bool) -> (subscribed: Result<
        broadcast::Receiver<Message>,
        Status,
    >)
        requires
            old(self).wf(),
        ensures
            final(self).wf(),
            match subscribed {
                Ok(rx) => {
                    &&& old(self)@.contains_key(id@) || autovivify
                    &&& vivified(old(self)@, final(self)@, id@)
                    &&& numbered(*old(self), *final(self), id@)
                    &&& hears(rx, final(self)@[id@])
                },
                Err(status) => {
                    &&& !old(self)@.contains_key(id@) && !autovivify
                    &&& status == Status::NotFound
                    &&& *final(self) == *old(self)
                },
            },
    {
        match self.topic(id, autovivify) {
            Ok(tx) => Ok(subscribe(&tx)),
            Err(status) => Err(status),
        }
    }

    /// Removes a topic, and tells its subscribers, if there are any, that it is
    /// closed. Returns the sender that told them.
    pub fn pubsub_close(&mut self, id: &String) -> (closed: Option<broadcast::Sender<Message>>)
        requires
            old(self).wf(),
        ensures
            final(self).wf(),
            final(self).server() == old(self).server(),
            final(self).made() == old(self).made(),
            final(self)@ == old(self)@.remove(id@),
            match closed {
                Some(tx) => {
                    let told = sent_through(old(self)@[id@]);
                    &&& old(self)@.contains_key(id@)
                    &&& same_topic(tx, old(self)@[id@])
                    &&& handed_to(tx) == handed_to(old(self)@[id@]).push(MessageView::Close)
                    &&& sent_through(tx) == told.push(MessageView::Close) || sent_through(tx)
                        == told
                },
                None => !old(self)@.contains_key(id@),
            },
    {
        let removed = self.topics.remove(id);
        assert forall|other: Seq<char>| #[trigger] self@.contains_key(other) implies topic_wf(
            self@[other],
            self.server(),
            other,
            self.made(),
        ) by {
            assert(old(self)@.contains_key(other));
        }
        match removed {
            Some(mut tx) => {
                let _ = send(&mut tx, Message::Close);
                Some(tx)
            },
            None => None,
        }
    }

    /// How many subscribers a topic has at this moment, in decimal.
    pub fn pubsub_count(&self, id: &String) -> (count: Result<String, Status>)
        requires
            self.wf(),
        ensures
            match count {
                Ok(text) => {
                    &&& self@.contains_key(id@)
                    &&& exists|n: usize| #[trigger]
                        counted(self@[id@], n) && text@ == decimal(n as nat)
                },
                Err(status) => !self@.contains_key(id@) && status == Status::NotFound,
            },
    {
        match self.topics.get(id) {
            Some(tx) => Ok(decimal_text(receiver_count(tx))),
            None => Err(Status::NotFound),
        }
    }
}

/// The topic has the usual capacity and a channel of its own, made for it on this
/// server. Its serial number is an earlier one, as long as they are counted.
pub open spec fn topic_wf(
    tx: broadcast::Sender<Message>,
    server: u64,
    id: Seq<char>,
    made: u64,
) -> bool {
    &&& backlog(tx) == BACKLOG
    &&& exists|serial: u64| #[trigger]
        belongs_to(tx, server, id, serial) && (serial < made || made == u64::MAX)
}

/// Every topic is in order.
pub open spec fn topics_wf(
    topics: Map<Seq<char>, broadcast::Sender<Message>>,
    server: u64,
    made: u64,
) -> bool {
    forall|id: Seq<char>| #[trigger]
        topics.contains_key(id) ==> topic_wf(topics[id], server, id, made)
}

proof fn lemma_topic_wf_later(
    tx: broadcast::Sender<Message>,
    server: u64,
    id: Seq<char>,
    made: u64,
    later: u64,
)
    requires
        topic_wf(tx, server, id, made),
        made <= later,
    ensures
        topic_wf(tx, server, id, later),
{
    let serial = choose|serial: u64| #[trigger]
        belongs_to(tx, server, id, serial) && (serial < made || made == u64::MAX);
    assert(belongs_to(tx, server, id, serial));
}

/// A topic that is made gets the next serial number. The numbers are counted as
/// far as they go; the last one is given to all topics that are left.
pub open spec fn numbered(before: PubSubClients, after: PubSubClients, id: Seq<char>) -> bool {
    &&& after.server() == before.server()
    &&& if before@.contains_key(id) {
        after.made() == before.made()
    } else {
        &&& belongs_to(after@[id], before.server(), id, before.made())
        &&& after.made() == if before.made() < u64::MAX {
            before.made() + 1
        } else {
            before.made() as int
        }
    }
}

/// The message was handed to a handle on the topic, as the only one, and
/// reached nobody.
pub open spec fn in_vain(topic: broadcast::Sender<Message>, message: MessageView) -> bool {
    exists|tx: broadcast::Sender<Message>|
        same_topic(tx, topic) && #[trigger] handed_to(tx) == seq![message] && sent_through(tx)
            == Seq::<MessageView>::empty()
}

/// There is the topic, the one from before if there was one; every other one
/// is as it was.
pub open spec fn vivified(
    before: Map<Seq<char>, broadcast::Sender<Message>>,
    after: Map<Seq<char>, broadcast::Sender<Message>>,
    id: Seq<char>,
) -> bool {
    &&& after.contains_key(id)
    &&& if before.contains_key(id) {
        after == before
    } else {
        after == before.insert(id, after[id])
    }
}

/// A request that is not served, and why.
pub struct Failure {
    pub status: Status,
    pub text: Option<String>,
}

/// A request that is not served, and why.
pub struct FailureView {
    pub status: Status,
    pub text: Option<Seq<char>>,
}

impl View for Failure {
    type V = FailureView;

    open spec fn view(&self) -> FailureView {
        FailureView {
            status: self.status,
            text: match self.text {
                Some(text) => Some(text@),
                None => None,
            },
        }
    }
}

/// What a publisher is told where nobody listens.
pub open spec fn nobody_listens() -> FailureView {
    FailureView { status: Status::InternalServerError, text: Some("channel closed"@) }
}

/// What a publisher reads of a request, one after the other.
pub enum Part {
    /// The request's headers.
    Start(Headers),
    /// A piece of its body.
    Frame(Vec<u8>),
    /// The body breaks off, for this reason.
    Broken(String),
    /// The body is complete.
    End,
}

/// The contents of a part.
pub enum PartView {
    Start(Seq<(Seq<char>, Seq<u8>)>),
    Frame(Seq<u8>),
    Broken(Seq<char>),
    End,
}

impl View for Part {
    type V = PartView;

    open spec fn view(&self) -> PartView {
        match self {
            Part::Start(headers) => PartView::Start(headers@),
            Part::Frame(data) => PartView::Frame(data@),
            Part::Broken(reason) => PartView::Broken(reason@),
            Part::End => PartView::End,
        }
    }
}

/// What the subscribers are told of a part.
pub open spec fn told_of(part: PartView) -> Result<MessageView, FailureView> {
    match part {
        PartView::Start(headers) => Ok(MessageView::Headers(headers)),
        PartView::Frame(data) => Ok(MessageView::Data(data)),
        PartView::Broken(reason) => Err(
            FailureView { status: Status::InternalServerError, text: Some(reason) },
        ),
        PartView::End => Ok(MessageView::Close),
    }
}

/// What the subscribers are told of a part. Of a body that breaks off they are
/// told nothing: the publisher's request fails.
pub fn message_of(part: Part) -> (message: Result<Message, Failure>)
    ensures
        match message {
            Ok(message) => told_of(part@) == Ok::<MessageView, FailureView>(message@),
            Err(failure) => told_of(part@) == Err::<MessageView, FailureView>(failure@),
        },
{
    match part {
        Part::Start(headers) => Ok(Message::Headers(headers)),
        Part::Frame(data) => Ok(Message::Data(data)),
        Part::Broken(reason) => Err(
            Failure { status: Status::InternalServerError, text: Some(reason) },
        ),
        Part::End => Ok(Message::Close),
    }
}

/// What becomes of a publisher's request after a send: it fails if its headers
/// reach nobody; later messages may. Returns how many subscribers there were.
pub fn after_send(starts: bool, sent: Result<usize, String>) -> (outcome: Result<usize, Failure>)
    ensures
        match sent {
            Ok(receivers) => outcome == Ok::<usize, Failure>(receivers),
            Err(text) => if starts {
                outcome matches Err(failure) && failure@ == (FailureView {
                    status: Status::InternalServerError,
                    text: Some(text@),
                })
            } else {
                outcome == Ok::<usize, Failure>(0)
            },
        },
{
    match sent {
        Ok(receivers) => Ok(receivers),
        Err(text) => if starts {
            Err(Failure { status: Status::InternalServerError, text: Some(text) })
        } else {
            Ok(0)
        },
    }
}

/// Publishes a part of a request. Returns how many subscribers there were.
///
/// How many are subscribed at this moment depends on the requests in flight, so
/// which number it is, is left open: it is the one that was counted for this
/// topic. What follows from it is up to `after_send`.
pub fn publish(tx: &mut broadcast::Sender<Message>, part: Part) -> (outcome: Result<usize, Failure>)
    ensures
        same_topic(*final(tx), *old(tx)),
        match told_of(part@) {
            Ok(message) => {
                let was = sent_through(*old(tx));
                let now = sent_through(*final(tx));
                &&& handed_to(*final(tx)) == handed_to(*old(tx)).push(message)
                &&& match outcome {
                    Ok(receivers) => {
                        &&& counted(*old(tx), receivers)
                        &&& if receivers > 0 {
                            now == was.push(message)
                        } else {
                            part !is Start && now == was
                        }
                    },
                    Err(failure) => {
                        &&& counted(*old(tx), 0)
                        &&& part is Start && now == was && failure@ == nobody_listens()
                    },
                }
            },
            Err(failure) => {
                &&& outcome matches Err(failed) && failed@ == failure
                &&& *final(tx) == *old(tx)
            },
        },
{
    let starts = matches!(part, Part::Start(_));
    match message_of(part) {
        Ok(message) => {
            let sent = match send(tx, message) {
                Ok(receivers) => Ok(receivers),
                Err(error) => Err(error_text(&error)),
            };
            after_send(starts, sent)
        },
        Err(failure) => Err(failure),
    }
}

/// The content type of what a subscriber is about to get, which the first
/// message decides. It has to hold the publisher's headers; anything else, a
/// gap before it or no message at all fails the subscriber's request.
pub fn subscription_start(first: Option<Result<Message, u64>>) -> (started: Result<Vec<u8>, Status>)
    ensures
        match first {
            Some(Ok(Message::Headers(headers))) => {
                started matches Ok(content_type) && content_type@ == forwarded_content_type(
                    headers@,
                )
            },
            _ => started == Err::<Vec<u8>, Status>(Status::InternalServerError),
        },
{
    match first {
        Some(Ok(Message::Headers(headers))) => Ok(headers.content_type()),
        _ => Err(Status::InternalServerError),
    }
}

/// What a subscriber's response goes on with after a further message, or after
/// the last one: a piece of the publisher's body, or nothing more.
pub open spec fn piece_of(item: Option<MessageView>) -> Option<Seq<u8>> {
    match item {
        Some(MessageView::Data(data)) => Some(data),
        _ => None,
    }
}

/// What a subscriber's response goes on with after a further message, or after
/// the last one. A publisher's headers come before its data, never among it.
pub fn subscription_next(item: Option<Message>) -> (piece: Option<Vec<u8>>)
    requires
        !(item matches Some(Message::Headers(_))),
    ensures
        match piece {
            Some(data) => item is Some && piece_of(Some(item->0@)) == Some(data@),
            None => item matches Some(message) ==> piece_of(Some(message@)) is None,
        },
{
    match item {
        Some(Message::Data(data)) => Some(data),
        _ => None,
    }
}

/// The body of a subscriber's response, piece by piece, given the messages
/// that follow the first.
pub open spec fn body_of(messages: Seq<MessageView>) -> Seq<Seq<u8>>
    decreases messages.len(),
{
    if messages.len() == 0 {
        seq![]
    } else {
        match piece_of(Some(messages[0])) {
            Some(data) => seq![data] + body_of(messages.skip(1)),
            None => seq![],
        }
    }
}

/// The parts of a complete request with these headers and this body.
pub open spec fn parts_of(headers: Seq<(Seq<char>, Seq<u8>)>, body: Seq<Seq<u8>>) -> Seq<PartView> {
    seq![PartView::Start(headers)] + body.map_values(|data: Seq<u8>| PartView::Frame(data)) + seq![
        PartView::End,
    ]
}

/// The messages that the subscribers get of these parts.
pub open spec fn messages_of(parts: Seq<PartView>) -> Seq<MessageView> {
    parts.map_values(|part: PartView| told_of(part)->Ok_0)
}

/// What a publisher sends is what a subscriber gets: the first message holds
/// the publisher's headers, and the body that the others make up is the
/// publisher's body, piece by piece.
pub proof fn law_subscriber_gets_what_is_published(
    headers: Seq<(Seq<char>, Seq<u8>)>,
    body: Seq<Seq<u8>>,
)
    ensures
        ({
            let messages = messages_of(parts_of(headers, body));
            &&& messages.len() == body.len() + 2
            &&& messages[0] == MessageView::Headers(headers)
            &&& body_of(messages.skip(1)) == body
        }),
{
    let messages = messages_of(parts_of(headers, body));
    let data = body.map_values(|data: Seq<u8>| MessageView::Data(data));
    assert(messages.skip(1) =~= data.push(MessageView::Close));
    lemma_body_of_data(body);
}

proof fn lemma_body_of_data(body: Seq<Seq<u8>>)
    ensures
        body_of(
            body.map_values(|data: Seq<u8>| MessageView::Data(data)).push(MessageView::Close),
        ) == body,
    decreases body.len(),
{
    let messages = body.map_values(|data: Seq<u8>| MessageView::Data(data)).push(
        MessageView::Close,
    );
    if body.len() > 0 {
        lemma_body_of_data(body.skip(1));
        assert(messages.skip(1) =~= body.skip(1).map_values(
            |data: Seq<u8>| MessageView::Data(data),
        ).push(MessageView::Close));
        assert(seq![body[0]] + body.skip(1) =~= body);
    }
}

/// A subscriber gets nothing that is sent after the topic was closed.
pub proof fn law_nothing_after_close(before: Seq<MessageView>, after: Seq<MessageView>)
    ensures
        body_of(before.push(MessageView::Close) + after) == body_of(before),
    decreases before.len(),
{
    let all = before.push(MessageView::Close) + after;
    if before.len() > 0 {
        law_nothing_after_close(before.skip(1), after);
        assert(all.skip(1) =~= before.skip(1).push(MessageView::Close) + after);
    }
}

/// The publishers and subscribers of one name meet on one topic, whoever comes
/// first.
pub proof fn law_same_name_same_topic(
    before: Map<Seq<char>, broadcast::Sender<Message>>,
    between: Map<Seq<char>, broadcast::Sender<Message>>,
    after: Map<Seq<char>, broadcast::Sender<Message>>,
    id: Seq<char>,
    tx: broadcast::Sender<Message>,
    rx: broadcast::Receiver<Message>,
)
    requires
        vivified(before, between, id),
        vivified(between, after, id),
        (same_topic(tx, between[id]) && hears(rx, after[id])) || (same_topic(tx, after[id])
            && hears(rx, between[id])),
    ensures
        hears(rx, tx),
{
}

/// A subscriber is one of its own topic only: what is published on another does
/// not reach it, be it in the same state of the server or in a later one. Nor
/// does what is published on a server of another number, under whatever name.
pub proof fn law_no_message_goes_astray(
    here: PubSubClients,
    there: PubSubClients,
    id: Seq<char>,
    other: Seq<char>,
    tx: broadcast::Sender<Message>,
    rx: broadcast::Receiver<Message>,
)
    requires
        here.wf(),
        there.wf(),
        here@.contains_key(id),
        there@.contains_key(other),
        other != id || there.server() != here.server(),
        hears(rx, here@[id]),
        same_topic(tx, there@[other]),
    ensures
        !hears(rx, there@[other]),
        !hears(rx, tx),
{
    assert(topic_wf(here@[id], here.server(), id, here.made()));
    assert(topic_wf(there@[other], there.server(), other, there.made()));
}

/// A topic that is made again after it was closed is another one: who subscribed
/// to the closed one does not hear what is published on the new one, nor the
/// other way round. It is said as long as the topics of the server are counted.
pub proof fn law_made_again_is_another_topic(
    earlier: PubSubClients,
    before: PubSubClients,
    after: PubSubClients,
    id: Seq<char>,
    rx: broadcast::Receiver<Message>,
)
    requires
        earlier.wf(),
        earlier@.contains_key(id),
        before.server() == earlier.server(),
        // the topic is made again at some time after
        earlier.made() <= before.made(),
        earlier.made() < u64::MAX,
        !before@.contains_key(id),
        numbered(before, after, id),
    ensures
        !(hears(rx, earlier@[id]) && hears(rx, after@[id])),
{
    assert(topic_wf(earlier@[id], earlier.server(), id, earlier.made()));
}

/// A request to one topic leaves every other as it is, and none is made but the
/// one that was asked for.
pub proof fn law_topics_are_separate(
    before: Map<Seq<char>, broadcast::Sender<Message>>,
    after: Map<Seq<char>, broadcast::Sender<Message>>,
    id: Seq<char>,
    other: Seq<char>,
)
    requires
        vivified(before, after, id),
        other != id,
    ensures
        after.dom() == before.dom().insert(id),
        before.contains_key(other) ==> after[other] == before[other],
{
    assert(after.dom() =~= before.dom().insert(id));
}

/// Closing a topic that was made by a request leaves nothing of it behind.
pub proof fn law_close_undoes_create(
    before: Map<Seq<char>, broadcast::Sender<Message>>,
    after: Map<Seq<char>, broadcast::Sender<Message>>,
    id: Seq<char>,
)
    requires
        !before.contains_key(id),
        vivified(before, after, id),
    ensures
        after.remove(id) == before,
{
    assert(after.remove(id) =~= before);
}

/// Closing a topic again changes nothing.
pub proof fn law_closed_once_and_for_all(
    topics: Map<Seq<char>, broadcast::Sender<Message>>,
    id: Seq<char>,
)
    ensures
        !topics.remove(id).contains_key(id),
        topics.remove(id).remove(id) == topics.remove(id),
{
    assert(topics.remove(id).remove(id) =~= topics.remove(id));
}

/// A random UUID in lower case: five groups of hexadecimal digits, the version
/// and the variant in their places.
pub open spec fn is_random_uuid(id: Seq<char>) -> bool {
    &&& id.len() == 36
    &&& forall|i: int|
        #![trigger id[i]]
        0 <= i < 36 ==> if i == 8 || i == 13 || i == 18 || i == 23 {
            id[i] == '-'
        } else {
            '0' <= id[i] <= '9' || 'a' <= id[i] <= 'f'
        }
    &&& id[14] == '4'
    &&& id[19] == '8' || id[19] == '9' || id[19] == 'a' || id[19] == 'b'
}

/// Calls `uuid::Uuid::new_v4`, and writes the result out as the crate's
/// `Display` does. Which UUID it is, is up to chance; all of them have this
/// form. It takes its randomness from the operating system.
#[verifier::external_body]
fn random_id() -> (id: String)
    ensures
        is_random_uuid(id@),
{
    uuid::Uuid::new_v4().to_string()
}

/// A part of a request is told by what it holds.
pub proof fn law_parts_are_what_they_hold(part: Part)
    ensures
        match part {
            Part::Start(headers) => part@ matches PartView::Start(entries) && entries.len()
                == headers.entries@.len() && forall|i: int|
                0 <= i < entries.len() ==> (#[trigger] entries[i]).0 == headers.entries@[i].0@
                    && entries[i].1 == headers.entries@[i].1@,
            Part::Frame(data) => part@ matches PartView::Frame(bytes) && bytes == data@,
            Part::Broken(reason) => part@ matches PartView::Broken(text) && text == reason@,
            Part::End => part@ is End,
        },
{
}

/// The subscribers are told of each part what it holds: of the start its
/// headers, of a piece of the body its bytes, of the end that it is the end. Of a
/// body that breaks off they are told nothing, and the publisher is answered
/// `500` with the reason.
pub proof fn law_subscribers_are_told_of_each_part(part: PartView)
    ensures
        match part {
            PartView::Start(headers) => told_of(part) matches Ok(message) && message
                == MessageView::Headers(headers),
            PartView::Frame(data) => told_of(part) matches Ok(message) && message
                == MessageView::Data(data),
            PartView::End => told_of(part) matches Ok(message) && message is Close,
            PartView::Broken(reason) => told_of(part) matches Err(failure) && failure.status
                == Status::InternalServerError && failure.text == Some(reason),
        },
{
}

/// A publisher that reaches nobody is answered `500` with the text `channel
/// closed`, and its message was handed to the topic, and to it alone, in vain.
pub proof fn law_nobody_listened(
    topic: broadcast::Sender<Message>,
    message: MessageView,
    failure: Failure,
)
    requires
        failure@ == nobody_listens(),
        in_vain(topic, message),
    ensures
        failure.status == Status::InternalServerError,
        failure.text matches Some(text) && text@ == "channel closed"@,
        exists|tx: broadcast::Sender<Message>|
            #![trigger handed_to(tx)]
            {
                &&& forall|rx: broadcast::Receiver<Message>| #[trigger]
                    hears(rx, tx) == hears(rx, topic)
                &&& handed_to(tx).len() == 1 && handed_to(tx)[0] == message
                &&& sent_through(tx).len() == 0
            },
{
    let tx = choose|tx: broadcast::Sender<Message>|
        same_topic(tx, topic) && #[trigger] handed_to(tx) == seq![message] && sent_through(tx)
            == Seq::<MessageView>::empty();
    assert(handed_to(tx)[0] == message);
}

/// A failure is told by its status and its text.
pub proof fn law_failures_are_what_they_say(failure: Failure)
    ensures
        failure@.status == failure.status,
        match failure.text {
            Some(text) => failure@.text == Some(text@),
            None => failure@.text is None,
        },
{
}

/// A request to a topic leaves there the topic, the one that was there if there
/// was one, and every other as it was, neither more nor fewer of them.
pub proof fn law_a_request_changes_one_topic(
    before: Map<Seq<char>, broadcast::Sender<Message>>,
    after: Map<Seq<char>, broadcast::Sender<Message>>,
    id: Seq<char>,
)
    requires
        vivified(before, after, id),
    ensures
        after.contains_key(id),
        forall|other: Seq<char>| #[trigger]
            after.contains_key(other) == (before.contains_key(other) || other == id),
        forall|other: Seq<char>| #[trigger]
            before.contains_key(other) ==> after[other] == before[other],
{
}

/// Every topic was made for a backlog of five messages.
pub proof fn law_topics_keep_five_messages(clients: PubSubClients, id: Seq<char>)
    requires
        clients.wf(),
        clients@.contains_key(id),
    ensures
        backlog(clients@[id]) == 5,
{
}

/// A subscriber's response goes on exactly with the data that is published, all
/// of it, and is over with whatever else comes, or when nothing comes any more.
pub proof fn law_a_response_goes_on_with_data(item: Option<MessageView>)
    ensures
        match item {
            Some(MessageView::Data(data)) => piece_of(item) == Some(data),
            _ => piece_of(item) is None,
        },
{
}

/// The body of a subscriber's response is the data up to the first message that
/// is something else, piece by piece and in order.
pub proof fn law_a_body_is_the_data_that_comes_first(messages: Seq<MessageView>)
    ensures
        body_of(messages).len() <= messages.len(),
        forall|i: int|
            0 <= i < body_of(messages).len() ==> messages[i] == MessageView::Data(
                #[trigger] body_of(messages)[i],
            ),
        body_of(messages).len() < messages.len() ==> !(messages[body_of(messages).len() as int]
            is Data),
    decreases messages.len(),
{
    if messages.len() > 0 && messages[0] is Data {
        let rest = messages.skip(1);
        law_a_body_is_the_data_that_comes_first(rest);
        let body = body_of(messages);
        assert(body =~= seq![messages[0]->Data_0] + body_of(rest));
        assert forall|i: int| 0 <= i < body.len() implies messages[i] == MessageView::Data(
            #[trigger] body[i],
        ) by {
            if i > 0 {
                assert(body[i] == body_of(rest)[i - 1]);
                assert(rest[i - 1] == messages[i]);
            }
        }
        if body.len() < messages.len() {
            assert(rest[body_of(rest).len() as int] == messages[body.len() as int]);
        }
    }
}

/// The name of a topic that is made at random has 36 characters: groups of 8, 4,
/// 4, 4 and 12 lower case hexadecimal digits with a dash between them. The third
/// group begins with the version, the fourth with the variant.
pub proof fn law_random_names_are_uuids(id: Seq<char>)
    requires
        is_random_uuid(id),
    ensures
        id.len() == 36,
        id[8] == '-' && id[13] == '-' && id[18] == '-' && id[23] == '-',
        id[14] == '4',
        id[19] == '8' || id[19] == '9' || id[19] == 'a' || id[19] == 'b',
        forall|i: int|
            0 <= i < 36 && i != 8 && i != 13 && i != 18 && i != 23 ==> '0' <= #[trigger] id[i]
                <= '9' || 'a' <= id[i] <= 'f',
{
}

} // verus!
