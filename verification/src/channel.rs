//! The named channels of a server.
use crate::directory::{
    channels_in, directory_wf, exists_channel, lemma_concat_contains,
    lemma_directory_wf_later, lemma_with_channel_wf,
    lemma_without_channel, line_becomes, line_moves, line_of, receives_from, sends_to, waits,
    waits_in, with_channel, without_channel, Channel, Directory,
};
use crate::exchange::{deliver, is_payload_of, payload_of, Delivery};
use crate::headers::Headers;
use crate::name_map::{lists, NameMap};
use crate::pipe::{
    clone_receiver, clone_sender, receiver_count, receivers_counted, sender_count,
    senders_counted, Payload,
};
use crate::rendezvous::{formed, Line, Pair, Phase};
use crate::status::Status;
use crate::traffic::{all_released, counts_fit, fresh, happens, released, Deed, Moment, Visit};
use axum::body::BodyDataStream;
use tokio::sync::oneshot;
use vstd::prelude::*;

verus! {

/// The first part of a channel's name.
#[derive(Debug)]
pub struct Namespace(pub String);

/// The second part of a channel's name.
#[derive(Debug)]
pub struct ChannelName(pub String);

impl View for Namespace {
    type V = Seq<char>;

    open spec fn view(&self) -> Seq<char> {
        self.0@
    }
}

impl View for ChannelName {
    type V = Seq<char>;

    open spec fn view(&self) -> Seq<char> {
        self.0@
    }
}

/// A producer's place in the queue of a channel.
pub struct ProducerPlace {
    /// By which the producer is known.
    pub ticket: u64,
    /// Where the payload goes, once it is the producer's turn.
    pub tx: flume::Sender<Payload>,
    /// What goes there.
    pub payload: Payload,
    /// Is told when the consumer is done with the payload.
    pub done: oneshot::Receiver<()>,
    /// The pair whose turn it is now, where this request has completed one.
    pub pair: Option<Pair>,
}

/// A consumer's place in the queue of a channel.
pub struct ConsumerPlace {
    /// By which the consumer is known.
    pub ticket: u64,
    /// Where the payload comes from, once it is the consumer's turn.
    pub rx: flume::Receiver<Payload>,
    /// The pair whose turn it is now, where this request has completed one.
    pub pair: Option<Pair>,
}

/// What became of a channel that may be unused, with the numbers of its
/// senders and receivers at that moment, the directory's own among them.
#[derive(Clone, Copy, Debug, PartialEq, Eq, Structural)]
pub enum CleanUp {
    /// There is no such channel.
    Absent,
    /// It is in use.
    Kept { senders: usize, receivers: usize },
    /// It was not in use, and is gone.
    Removed { senders: usize, receivers: usize },
}

/// The channels that are kept under each namespace.
spec fn opened(namespaces: Map<Seq<char>, NameMap<Channel>>) -> Directory {
    namespaces.map_values(|channels: NameMap<Channel>| channels@)
}

broadcast proof fn lemma_opened_insert(
    namespaces: Map<Seq<char>, NameMap<Channel>>,
    namespace: Seq<char>,
    channels: NameMap<Channel>,
)
    ensures
        #[trigger] opened(namespaces.insert(namespace, channels)) == opened(namespaces).insert(
            namespace,
            channels@,
        ),
{
    assert(opened(namespaces.insert(namespace, channels)) =~= opened(namespaces).insert(
        namespace,
        channels@,
    ));
}

broadcast proof fn lemma_opened_remove(
    namespaces: Map<Seq<char>, NameMap<Channel>>,
    namespace: Seq<char>,
)
    ensures
        #[trigger] opened(namespaces.remove(namespace)) == opened(namespaces).remove(namespace),
{
    assert(opened(namespaces.remove(namespace)) =~= opened(namespaces).remove(namespace));
}

broadcast group group_opened {
    lemma_opened_insert,
    lemma_opened_remove,
}

/// The channels of a server.
pub struct ChannelClients {
    number: u64,
    namespaces: NameMap<NameMap<Channel>>,
    next_ticket: u64,
}

impl View for ChannelClients {
    type V = Directory;

    closed spec fn view(&self) -> Directory {
        opened(self.namespaces@)
    }
}

impl ChannelClients {
    /// The number by which the server is told apart from others.
    pub closed spec fn server(&self) -> u64 {
        self.number
    }

    /// How many requests have been given a ticket.
    pub closed spec fn tickets(&self) -> int {
        self.next_ticket as int
    }

    /// No name occurs twice.
    pub closed spec fn unique(&self) -> bool {
        &&& self.namespaces.wf()
        &&& forall|namespace: Seq<char>| #[trigger]
            self.namespaces@.contains_key(namespace) ==> self.namespaces@[namespace].wf()
    }

    /// Every namespace has a channel, and every channel is in order and has a
    /// pipe of its own.
    pub open spec fn wf(&self) -> bool {
        &&& self.unique()
        &&& directory_wf(self@, self.server(), self.tickets())
    }

    /// The server at a moment at which these are the requests to its channels.
    pub open spec fn moment(&self, visits: Map<u64, Visit>) -> Moment {
        Moment { server: self.server(), directory: self@, tickets: self.tickets(), visits }
    }

    /// A server without channels, of this number.
    pub fn new(server: u64) -> (clients: ChannelClients)
        ensures
            clients.wf(),
            clients.server() == server,
            clients.moment(Map::empty()) == fresh(server),
            clients@ == Map::<Seq<char>, Map<Seq<char>, Channel>>::empty(),
            clients.tickets() == 0,
    {
        let clients = ChannelClients { number: server, namespaces: NameMap::new(), next_ticket: 0 };
        assert(clients@ =~= Map::<Seq<char>, Map<Seq<char>, Channel>>::empty());
        clients
    }

    /// The channel of this name, which is made for this request if there is none.
    fn channel_mut(&mut self, namespace: &Namespace, name: &ChannelName, ticket: u64) -> (channel:
        &mut Channel)
        requires
            old(self).unique(),
        ensures
            final(self).unique(),
            final(self).server() == old(self).server(),
            final(self).tickets() == old(self).tickets(),
            final(self)@ == with_channel(old(self)@, namespace@, name@, *final(channel)),
            if exists_channel(old(self)@, namespace@, name@) {
                *channel == old(self)@[namespace@][name@]
            } else {
                &&& channel.line@ == Line::empty()
                &&& channel.opened_by() == ticket
                &&& channel.belongs_to(old(self).server(), namespace@, name@)
                &&& forall|tickets: int| ticket < tickets ==> #[trigger] channel.wf(tickets)
            },
    {
        broadcast use group_opened;

        let number = self.number;
        if !self.namespaces.contains(&namespace.0) {
            self.namespaces.insert(namespace.0.clone(), NameMap::new());
        }
        let channels = self.namespaces.get_mut(&namespace.0).unwrap();
        if !channels.contains(&name.0) {
            channels.insert(name.0.clone(), Channel::new(number, &namespace.0, &name.0, ticket));
        }
        proof {
            let made = channels@;
            assert forall|channel: Channel| #[trigger]
                made.insert(name@, channel) == channels_in(old(self)@, namespace@).insert(
                    name@,
                    channel,
                ) by {
                assert(made.insert(name@, channel) =~= channels_in(old(self)@, namespace@).insert(
                    name@,
                    channel,
                ));
            }
        }
        channels.get_mut(&name.0).unwrap()
    }

    /// A producer request for a channel, which is made on first use. The
    /// producer gets its place in the channel's queue, its payload and the end
    /// of the pipe that it is to send the payload into.
    pub fn broadcast_to_channel(
        &mut self,
        namespace: &Namespace,
        channel_name: &ChannelName,
        headers: Headers,
        body_stream: BodyDataStream,
    ) -> (place: Result<ProducerPlace, Status>)
        requires
            old(self).wf(),
        ensures
            final(self).wf(),
            match place {
                Ok(place) => {
                    &&& place.ticket == old(self).tickets()
                    &&& final(self).server() == old(self).server()
                    &&& final(self).tickets() == old(self).tickets() + 1
                    &&& arrival_happens(
                        *old(self),
                        *final(self),
                        namespace@,
                        channel_name@,
                        place.ticket,
                        true,
                    )
                    &&& line_becomes(
                        old(self)@,
                        final(self)@,
                        namespace@,
                        channel_name@,
                        line_of(old(self)@, namespace@, channel_name@).with_producer(place.ticket),
                    )
                    &&& !exists_channel(old(self)@, namespace@, channel_name@)
                        ==> final(self)@[namespace@][channel_name@].opened_by() == place.ticket
                    &&& sends_to(place.tx, final(self)@[namespace@][channel_name@])
                    &&& is_payload_of(
                        place.payload,
                        place.done,
                        place.ticket,
                        headers@,
                        body_stream,
                    )
                    &&& place.pair == formed(
                        line_of(old(self)@, namespace@, channel_name@),
                        line_of(final(self)@, namespace@, channel_name@),
                    )
                },
                Err(status) => {
                    &&& old(self).tickets() == u64::MAX
                    &&& status == Status::InternalServerError
                    &&& *final(self) == *old(self)
                },
            },
    {
        if self.next_ticket == u64::MAX {
            return Err(Status::InternalServerError);
        }
        let ticket = self.next_ticket;
        proof {
            lemma_directory_wf_later(self@, self.server(), ticket as int, ticket + 1);
        }
        let channel = self.channel_mut(namespace, channel_name, ticket);
        assert(channel.wf(ticket + 1));
        let pair = channel.line.join_producer(ticket);
        let tx = clone_sender(&channel.tx);
        self.next_ticket = ticket + 1;
        proof {
            lemma_with_channel_wf(
                old(self)@,
                old(self).server(),
                namespace@,
                channel_name@,
                self@[namespace@][channel_name@],
                ticket + 1,
            );
        }
        let (payload, done) = payload_of(ticket, headers, body_stream);
        Ok(ProducerPlace { ticket, tx, payload, done, pair })
    }

    /// A consumer request for a channel, which is made on first use. The
    /// consumer gets its place in the channel's queue and the end of the pipe
    /// that it is to receive a payload from.
    pub fn subscribe_to_channel(
        &mut self,
        namespace: &Namespace,
        channel_name: &ChannelName,
    ) -> (place: Result<ConsumerPlace, Status>)
        requires
            old(self).wf(),
        ensures
            final(self).wf(),
            match place {
                Ok(place) => {
                    &&& place.ticket == old(self).tickets()
                    &&& final(self).server() == old(self).server()
                    &&& final(self).tickets() == old(self).tickets() + 1
                    &&& arrival_happens(
                        *old(self),
                        *final(self),
                        namespace@,
                        channel_name@,
                        place.ticket,
                        false,
                    )
                    &&& line_becomes(
                        old(self)@,
                        final(self)@,
                        namespace@,
                        channel_name@,
                        line_of(old(self)@, namespace@, channel_name@).with_consumer(place.ticket),
                    )
                    &&& !exists_channel(old(self)@, namespace@, channel_name@)
                        ==> final(self)@[namespace@][channel_name@].opened_by() == place.ticket
                    &&& receives_from(place.rx, final(self)@[namespace@][channel_name@])
                    &&& place.pair == formed(
                        line_of(old(self)@, namespace@, channel_name@),
                        line_of(final(self)@, namespace@, channel_name@),
                    )
                },
                Err(status) => {
                    &&& old(self).tickets() == u64::MAX
                    &&& status == Status::InternalServerError
                    &&& *final(self) == *old(self)
                },
            },
    {
        if self.next_ticket == u64::MAX {
            return Err(Status::InternalServerError);
        }
        let ticket = self.next_ticket;
        proof {
            lemma_directory_wf_later(self@, self.server(), ticket as int, ticket + 1);
        }
        let channel = self.channel_mut(namespace, channel_name, ticket);
        assert(channel.wf(ticket + 1));
        let pair = channel.line.join_consumer(ticket);
        let rx = clone_receiver(&channel.rx);
        self.next_ticket = ticket + 1;
        proof {
            lemma_with_channel_wf(
                old(self)@,
                old(self).server(),
                namespace@,
                channel_name@,
                self@[namespace@][channel_name@],
                ticket + 1,
            );
        }
        Ok(ConsumerPlace { ticket, rx, pair })
    }

    /// The channel of this name, if there is one.
    fn existing_mut(&mut self, namespace: &Namespace, name: &ChannelName) -> (channel: Option<
        &mut Channel,
    >)
        requires
            old(self).unique(),
        ensures
            final(self).unique(),
            final(self).server() == old(self).server(),
            final(self).tickets() == old(self).tickets(),
            match channel {
                Some(channel) => {
                    &&& exists_channel(old(self)@, namespace@, name@)
                    &&& *channel == old(self)@[namespace@][name@]
                    &&& final(self)@ == with_channel(
                        old(self)@,
                        namespace@,
                        name@,
                        *final(channel),
                    )
                },
                None => {
                    &&& !exists_channel(old(self)@, namespace@, name@)
                    &&& final(self)@ == old(self)@
                },
            },
    {
        broadcast use group_opened;

        match self.namespaces.get_mut(&namespace.0) {
            Some(channels) => {
                assert(old(self)@.insert(namespace@, channels@) =~= old(self)@);
                channels.get_mut(&name.0)
            },
            None => None,
        }
    }

    /// A consumer has received the payload of this producer. Returns whether the
    /// two are the pair that was to meet; their exchange then begins.
    pub fn hand_over(
        &mut self,
        namespace: &Namespace,
        channel_name: &ChannelName,
        producer: u64,
        consumer: u64,
    ) -> (begun: bool)
        requires
            old(self).wf(),
        ensures
            final(self).wf(),
            final(self).server() == old(self).server(),
            final(self).tickets() == old(self).tickets(),
            line_moves(
                old(self)@,
                final(self)@,
                namespace@,
                channel_name@,
                line_of(old(self)@, namespace@, channel_name@).handed_over(producer, consumer),
            ),
            receipt_happens(
                *old(self),
                *final(self),
                namespace@,
                channel_name@,
                producer,
                consumer,
            ),
            begun == line_of(old(self)@, namespace@, channel_name@).is_meeting(producer, consumer),
            begun == (old(self)@.contains_key(namespace@)
                && old(self)@[namespace@].contains_key(channel_name@)
                && old(self)@[namespace@][channel_name@].line@.pair == Some(
                Pair { producer, consumer, phase: Phase::Meeting },
            )),
    {
        match self.existing_mut(namespace, channel_name) {
            Some(channel) => {
                let begun = channel.line.hand_over(producer, consumer);
                proof {
                    lemma_with_channel_wf(
                        old(self)@,
                        old(self).server(),
                        namespace@,
                        channel_name@,
                        *channel,
                        old(self).tickets(),
                    );
                }
                begun
            },
            None => false,
        }
    }

    /// A request is over, served or not. Returns the pair whose turn it is
    /// now, where this has made way for one.
    pub fn leave(&mut self, namespace: &Namespace, channel_name: &ChannelName, ticket: u64) -> (pair:
        Option<Pair>)
        requires
            old(self).wf(),
        ensures
            final(self).wf(),
            final(self).server() == old(self).server(),
            final(self).tickets() == old(self).tickets(),
            line_moves(
                old(self)@,
                final(self)@,
                namespace@,
                channel_name@,
                line_of(old(self)@, namespace@, channel_name@).after_leaving(ticket),
            ),
            leaving_happens(*old(self), *final(self), namespace@, channel_name@, ticket),
            pair == formed(
                line_of(old(self)@, namespace@, channel_name@),
                line_of(final(self)@, namespace@, channel_name@),
            ),
    {
        match self.existing_mut(namespace, channel_name) {
            Some(channel) => {
                assert(channel.wf(old(self).tickets()));
                let pair = channel.line.leave(ticket);
                proof {
                    lemma_with_channel_wf(
                        old(self)@,
                        old(self).server(),
                        namespace@,
                        channel_name@,
                        *channel,
                        old(self).tickets(),
                    );
                }
                pair
            },
            None => None,
        }
    }

    /// Takes a channel out of the directory, and its namespace with it if it
    /// was the last one there.
    fn take_channel(&mut self, namespace: &Namespace, name: &ChannelName) -> (taken: Option<Channel>)
        requires
            old(self).wf(),
        ensures
            final(self).wf(),
            final(self).server() == old(self).server(),
            final(self).tickets() == old(self).tickets(),
            final(self)@ == without_channel(old(self)@, namespace@, name@),
            match taken {
                Some(channel) => {
                    &&& exists_channel(old(self)@, namespace@, name@)
                    &&& channel == old(self)@[namespace@][name@]
                },
                None => {
                    &&& !exists_channel(old(self)@, namespace@, name@)
                    &&& final(self)@ == old(self)@
                },
            },
    {
        broadcast use group_opened;

        proof {
            lemma_without_channel(self@, self.server(), namespace@, name@, self.tickets());
        }
        match self.namespaces.get_mut(&namespace.0) {
            Some(channels) => {
                let taken = channels.remove(&name.0);
                let last = channels.is_empty();
                if last {
                    let _ = self.namespaces.remove(&namespace.0);
                    assert(self@ =~= old(self)@.remove(namespace@));
                }
                taken
            },
            None => None,
        }
    }

    /// Removes a channel that has this many senders and receivers, if nobody
    /// but the directory itself holds any of them. Returns whether it did.
    pub fn remove_if_unused(
        &mut self,
        namespace: &Namespace,
        channel_name: &ChannelName,
        senders: usize,
        receivers: usize,
    ) -> (removed: bool)
        requires
            old(self).wf(),
        ensures
            final(self).wf(),
            final(self).server() == old(self).server(),
            final(self).tickets() == old(self).tickets(),
            removed == (exists_channel(old(self)@, namespace@, channel_name@) && senders <= 1
                && receivers <= 1),
            final(self)@ == if removed {
                without_channel(old(self)@, namespace@, channel_name@)
            } else {
                old(self)@
            },
            clean_up_happens(
                *old(self),
                *final(self),
                namespace@,
                channel_name@,
                senders,
                receivers,
            ),
    {
        if senders <= 1 && receivers <= 1 {
            self.take_channel(namespace, channel_name).is_some()
        } else {
            false
        }
    }

    /// Removes a channel that nobody but the directory itself holds an end of.
    ///
    /// Who holds an end at this moment depends on the requests in flight, so
    /// which counts these are is left open. They are counts of this channel, and
    /// the decision on them is that of `remove_if_unused`.
    pub fn clean_up_unused_channels(
        &mut self,
        namespace: &Namespace,
        channel_name: &ChannelName,
    ) -> (outcome: CleanUp)
        requires
            old(self).wf(),
        ensures
            final(self).wf(),
            final(self).server() == old(self).server(),
            final(self).tickets() == old(self).tickets(),
            match outcome {
                CleanUp::Absent => {
                    &&& !exists_channel(old(self)@, namespace@, channel_name@)
                    &&& final(self)@ == old(self)@
                    &&& forall|senders: usize, receivers: usize| #[trigger]
                        clean_up_happens(
                            *old(self),
                            *final(self),
                            namespace@,
                            channel_name@,
                            senders,
                            receivers,
                        )
                },
                CleanUp::Kept { senders, receivers } => {
                    &&& exists_channel(old(self)@, namespace@, channel_name@)
                    &&& senders_counted(old(self)@[namespace@][channel_name@].tx, senders)
                    &&& receivers_counted(old(self)@[namespace@][channel_name@].tx, receivers)
                    &&& senders > 1 || receivers > 1
                    &&& final(self)@ == old(self)@
                    &&& clean_up_happens(
                        *old(self),
                        *final(self),
                        namespace@,
                        channel_name@,
                        senders,
                        receivers,
                    )
                },
                CleanUp::Removed { senders, receivers } => {
                    &&& exists_channel(old(self)@, namespace@, channel_name@)
                    &&& senders_counted(old(self)@[namespace@][channel_name@].tx, senders)
                    &&& receivers_counted(old(self)@[namespace@][channel_name@].tx, receivers)
                    &&& senders == 1 && receivers <= 1
                    &&& final(self)@ == without_channel(old(self)@, namespace@, channel_name@)
                    &&& clean_up_happens(
                        *old(self),
                        *final(self),
                        namespace@,
                        channel_name@,
                        senders,
                        receivers,
                    )
                },
            },
    {
        let (senders, receivers) = match self.namespaces.get(&namespace.0) {
            Some(channels) => match channels.get(&channel_name.0) {
                Some(channel) => (sender_count(&channel.tx), receiver_count(&channel.tx)),
                None => return CleanUp::Absent,
            },
            None => return CleanUp::Absent,
        };
        if self.remove_if_unused(namespace, channel_name, senders, receivers) {
            CleanUp::Removed { senders, receivers }
        } else {
            CleanUp::Kept { senders, receivers }
        }
    }

    /// Destroys a channel. Returns the tickets of those who were waiting for
    /// it, whose requests fail.
    pub fn delete_channel(&mut self, namespace: &Namespace, channel_name: &ChannelName) -> (dismissed:
        Vec<u64>)
        requires
            old(self).wf(),
        ensures
            final(self).wf(),
            final(self).server() == old(self).server(),
            final(self).tickets() == old(self).tickets(),
            final(self)@ == without_channel(old(self)@, namespace@, channel_name@),
            forall|visits: Map<u64, Visit>|
                #![trigger old(self).moment(visits)]
                happens(
                    old(self).moment(visits),
                    Deed::DeleteChannel { namespace: namespace@, name: channel_name@ },
                    final(self).moment(released(visits, namespace@, channel_name@)),
                ),
            dismissed@ == line_of(old(self)@, namespace@, channel_name@).producers + line_of(
                old(self)@,
                namespace@,
                channel_name@,
            ).consumers,
            dismissed@ == if old(self)@.contains_key(namespace@)
                && old(self)@[namespace@].contains_key(channel_name@) {
                old(self)@[namespace@][channel_name@].line@.producers
                    + old(self)@[namespace@][channel_name@].line@.consumers
            } else {
                Seq::<u64>::empty()
            },
    {
        match self.take_channel(namespace, channel_name) {
            Some(channel) => channel.line.waiting(),
            None => Vec::new(),
        }
    }

    /// Destroys a namespace and all of its channels. Returns the tickets of
    /// those who were waiting for one of them, whose requests fail.
    pub fn delete_namespace(&mut self, namespace: &Namespace) -> (dismissed: Vec<u64>)
        requires
            old(self).wf(),
        ensures
            final(self).wf(),
            final(self).server() == old(self).server(),
            final(self).tickets() == old(self).tickets(),
            final(self)@ == old(self)@.remove(namespace@),
            forall|visits: Map<u64, Visit>|
                #![trigger old(self).moment(visits)]
                happens(
                    old(self).moment(visits),
                    Deed::DeleteNamespace { namespace: namespace@ },
                    final(self).moment(all_released(visits, namespace@)),
                ),
            forall|ticket: u64| #[trigger]
                dismissed@.contains(ticket) <==> waits_in(
                    channels_in(old(self)@, namespace@),
                    ticket,
                ),
            forall|ticket: u64| #[trigger]
                dismissed@.contains(ticket) <==> old(self)@.contains_key(namespace@) && exists|
                    name: Seq<char>,
                | #[trigger]
                    old(self)@[namespace@].contains_key(name) && (old(self)@[namespace@][name].line@.producers.contains(ticket) || old(self)@[namespace@][name].line@.consumers.contains(ticket)),
    {
        broadcast use group_opened;

        let mut dismissed: Vec<u64> = Vec::new();
        match self.namespaces.remove(&namespace.0) {
            Some(channels) => {
                proof {
                    channels.lemma_names();
                }
                let mut i: usize = 0;
                while i < channels.len()
                    invariant
                        channels.wf(),
                        i <= channels.names().len(),
                        forall|ticket: u64| #[trigger]
                            dismissed@.contains(ticket) <==> exists|j: int|
                                0 <= j < i && waits(
                                    channels@[#[trigger] channels.names()[j]].line@,
                                    ticket,
                                ),
                    decreases channels.names().len() - i,
                {
                    let (_, channel) = channels.entry(i);
                    let mut more = channel.line.waiting();
                    let ghost known = dismissed@;
                    let ghost line = channel.line@;
                    dismissed.append(&mut more);
                    proof {
                        assert forall|ticket: u64| #[trigger]
                            dismissed@.contains(ticket) <==> exists|j: int|
                                0 <= j < i + 1 && waits(
                                    channels@[#[trigger] channels.names()[j]].line@,
                                    ticket,
                                ) by {
                            lemma_concat_contains(known, line.producers + line.consumers, ticket);
                            lemma_concat_contains(line.producers, line.consumers, ticket);
                            assert(channels@[channels.names()[i as int]].line@ == line);
                        }
                    }
                    i = i + 1;
                }
                proof {
                    assert forall|ticket: u64| #[trigger]
                        dismissed@.contains(ticket) <==> waits_in(channels@, ticket) by {
                        if waits_in(channels@, ticket) {
                            let name = choose|name: Seq<char>| #[trigger]
                                channels@.contains_key(name) && waits(
                                    channels@[name].line@,
                                    ticket,
                                );
                            assert(channels.names().to_set().contains(name));
                            let j = channels.names().index_of(name);
                            assert(channels.names()[j] == name);
                        }
                        if dismissed@.contains(ticket) {
                            let j = choose|j: int|
                                0 <= j < i && waits(
                                    channels@[#[trigger] channels.names()[j]].line@,
                                    ticket,
                                );
                            let name = channels.names()[j];
                            assert(channels.names().to_set().contains(name));
                            assert(channels@.contains_key(name));
                        }
                    }
                }
            },
            None => {
                assert(self@ =~= old(self)@.remove(namespace@));
            },
        }
        dismissed
    }

    /// What came of a consumer's wait: a payload, or none because the channel
    /// is gone. Returns what the consumer is answered.
    ///
    /// Whatever payload it has received is the consumer's, even that of a
    /// producer that has walked away since: nobody else can have it.
    pub fn receive(
        &mut self,
        namespace: &Namespace,
        channel_name: &ChannelName,
        consumer: u64,
        received: Option<Payload>,
    ) -> (answer: Result<Delivery, Status>)
        requires
            old(self).wf(),
        ensures
            final(self).wf(),
            final(self).server() == old(self).server(),
            final(self).tickets() == old(self).tickets(),
            match received {
                Some(payload) => {
                    &&& line_moves(
                        old(self)@,
                        final(self)@,
                        namespace@,
                        channel_name@,
                        line_of(old(self)@, namespace@, channel_name@).handed_over(
                            payload.producer,
                            consumer,
                        ),
                    )
                    &&& receipt_happens(
                        *old(self),
                        *final(self),
                        namespace@,
                        channel_name@,
                        payload.producer,
                        consumer,
                    )
                    &&& answer matches Ok(delivery) && delivery.carries(payload)
                },
                None => {
                    &&& answer == Err::<Delivery, Status>(Status::InternalServerError)
                    &&& *final(self) == *old(self)
                },
            },
    {
        match received {
            Some(payload) => {
                let _ = self.hand_over(namespace, channel_name, payload.producer, consumer);
                Ok(deliver(payload))
            },
            None => Err(Status::InternalServerError),
        }
    }

    /// The namespaces in use, each once.
    pub fn list_all_namespaces(&self) -> (namespaces: Vec<Namespace>)
        requires
            self.wf(),
        ensures
            lists(namespaces@.map_values(|namespace: Namespace| namespace@), self@.dom()),
    {
        let mut namespaces: Vec<Namespace> = Vec::new();
        let mut i: usize = 0;
        while i < self.namespaces.len()
            invariant
                self.namespaces.wf(),
                i <= self.namespaces.names().len(),
                namespaces@.len() == i,
                forall|j: int|
                    0 <= j < i ==> (#[trigger] namespaces@[j])@ == self.namespaces.names()[j],
            decreases self.namespaces.names().len() - i,
        {
            let (name, _) = self.namespaces.entry(i);
            namespaces.push(Namespace(name.clone()));
            i = i + 1;
        }
        proof {
            self.namespaces.lemma_names();
            assert(namespaces@.map_values(|namespace: Namespace| namespace@)
                =~= self.namespaces.names());
            assert(self.namespaces@.dom() =~= self@.dom());
        }
        namespaces
    }

    /// The channels of a namespace, each once, if the namespace is in use.
    pub fn list_all_namespace_channels(&self, namespace: &Namespace) -> (names: Result<
        Vec<ChannelName>,
        Status,
    >)
        requires
            self.wf(),
        ensures
            match names {
                Ok(names) => {
                    &&& self@.contains_key(namespace@)
                    &&& lists(
                        names@.map_values(|name: ChannelName| name@),
                        self@[namespace@].dom(),
                    )
                },
                Err(status) => !self@.contains_key(namespace@) && status == Status::NotFound,
            },
    {
        match self.namespaces.get(&namespace.0) {
            Some(channels) => Ok(channel_names(channels)),
            None => Err(Status::NotFound),
        }
    }

    /// All namespaces with their channels, each once.
    pub fn app_state(&self) -> (stats: Vec<(Namespace, Vec<ChannelName>)>)
        requires
            self.wf(),
        ensures
            lists(
                stats@.map_values(|entry: (Namespace, Vec<ChannelName>)| entry.0@),
                self@.dom(),
            ),
            forall|i: int|
                0 <= i < stats@.len() ==> lists(
                    (#[trigger] stats@[i]).1@.map_values(|name: ChannelName| name@),
                    self@[stats@[i].0@].dom(),
                ),
    {
        let mut stats: Vec<(Namespace, Vec<ChannelName>)> = Vec::new();
        let mut i: usize = 0;
        while i < self.namespaces.len()
            invariant
                self.unique(),
                i <= self.namespaces.names().len(),
                stats@.len() == i,
                forall|j: int|
                    0 <= j < i ==> (#[trigger] stats@[j]).0@ == self.namespaces.names()[j]
                        && lists(
                        stats@[j].1@.map_values(|name: ChannelName| name@),
                        self@[stats@[j].0@].dom(),
                    ),
            decreases self.namespaces.names().len() - i,
        {
            let (name, channels) = self.namespaces.entry(i);
            stats.push((Namespace(name.clone()), channel_names(channels)));
            i = i + 1;
        }
        proof {
            self.namespaces.lemma_names();
            assert(stats@.map_values(|entry: (Namespace, Vec<ChannelName>)| entry.0@)
                =~= self.namespaces.names());
            assert(self.namespaces@.dom() =~= self@.dom());
        }
        stats
    }
}

/// A request arrives, whatever other requests there are.
pub open spec fn arrival_happens(
    before: ChannelClients,
    after: ChannelClients,
    namespace: Seq<char>,
    name: Seq<char>,
    ticket: u64,
    producer: bool,
) -> bool {
    forall|visits: Map<u64, Visit>|
        #![trigger before.moment(visits)]
        happens(
            before.moment(visits),
            if producer {
                Deed::Produce { namespace, name, ticket }
            } else {
                Deed::Consume { namespace, name, ticket }
            },
            after.moment(visits.insert(ticket, Visit { namespace, name, producer, holds: true })),
        )
}

/// A consumer receives a payload, whatever requests there are.
pub open spec fn receipt_happens(
    before: ChannelClients,
    after: ChannelClients,
    namespace: Seq<char>,
    name: Seq<char>,
    producer: u64,
    consumer: u64,
) -> bool {
    forall|visits: Map<u64, Visit>|
        #![trigger before.moment(visits)]
        happens(
            before.moment(visits),
            Deed::Receive { namespace, name, producer, consumer },
            after.moment(visits),
        )
}

/// A request to this channel that has ended and still has to be cleaned up
/// after.
pub open spec fn is_ended(
    visits: Map<u64, Visit>,
    namespace: Seq<char>,
    name: Seq<char>,
    ticket: u64,
) -> bool {
    &&& visits.contains_key(ticket)
    &&& visits[ticket].is_to(namespace, name)
    &&& !visits[ticket].holds
}

/// A request that has ended leaves, whatever other requests there are.
pub open spec fn leaving_happens(
    before: ChannelClients,
    after: ChannelClients,
    namespace: Seq<char>,
    name: Seq<char>,
    ticket: u64,
) -> bool {
    forall|visits: Map<u64, Visit>|
        #![trigger before.moment(visits)]
        is_ended(visits, namespace, name, ticket) ==> happens(
            before.moment(visits),
            Deed::Leave { ticket },
            after.moment(visits),
        )
}

/// A request that has ended is cleaned up after, whichever it is and whatever
/// other requests there are, as long as the counts are those of the requests
/// that hold an end.
pub open spec fn clean_up_happens(
    before: ChannelClients,
    after: ChannelClients,
    namespace: Seq<char>,
    name: Seq<char>,
    senders: usize,
    receivers: usize,
) -> bool {
    forall|visits: Map<u64, Visit>, ticket: u64|
        #![trigger before.moment(visits), visits.remove(ticket)]
        is_ended(visits, namespace, name, ticket) && counts_fit(
            visits,
            namespace,
            name,
            senders,
            receivers,
        ) ==> happens(
            before.moment(visits),
            Deed::CleanUp { ticket, senders, receivers },
            after.moment(visits.remove(ticket)),
        )
}

/// The names of these channels.
fn channel_names(channels: &NameMap<Channel>) -> (names: Vec<ChannelName>)
    requires
        channels.wf(),
    ensures
        lists(names@.map_values(|name: ChannelName| name@), channels@.dom()),
{
    let mut names: Vec<ChannelName> = Vec::new();
    let mut i: usize = 0;
    while i < channels.len()
        invariant
            channels.wf(),
            i <= channels.names().len(),
            names@.len() == i,
            forall|j: int| 0 <= j < i ==> (#[trigger] names@[j])@ == channels.names()[j],
        decreases channels.names().len() - i,
    {
        let (name, _) = channels.entry(i);
        names.push(ChannelName(name.clone()));
        i = i + 1;
    }
    proof {
        channels.lemma_names();
        assert(names@.map_values(|name: ChannelName| name@) =~= channels.names());
    }
    names
}

/// A namespace and a channel name are told by their text, letter by letter.
pub proof fn law_names_are_their_text(
    namespace: Namespace,
    other_namespace: Namespace,
    name: ChannelName,
    other_name: ChannelName,
)
    ensures
        namespace@ == other_namespace@ <==> namespace.0@ == other_namespace.0@,
        name@ == other_name@ <==> name.0@ == other_name.0@,
        namespace@ == namespace.0@,
        name@ == name.0@,
{
}

} // verus!
